//! The eight opcodes, the symbols that denote them, and the two ways a source
//! text can fail validation.

use vstd::prelude::*;

verus! {

/// Length of the tape, in cells.
pub const TAPE_LEN: usize = 30000;

/// One atomic instruction of the language.
#[derive(Clone, Copy, Debug, PartialEq, Eq, Structural)]
pub enum Instructions {
    IncrementPtr,
    DecrementPtr,
    IncrementByte,
    DecrementByte,
    OutputByte,
    InputByte,
    BeginLoop,
    EndLoop,
}

/// Why a source text was rejected.
#[derive(Clone, Copy, Debug, PartialEq, Eq, Structural)]
pub enum ValidationError {
    /// A `]` occurs where no `[` is open.
    UnmatchedCloseBracket,
    /// The text ends while a `[` is still open.
    UnmatchedOpenBracket,
}

/// The opcode a character denotes, if it is one of the eight symbols.
pub open spec fn opcode_of(c: char) -> Option<Instructions> {
    if c == '>' {
        Some(Instructions::IncrementPtr)
    } else if c == '<' {
        Some(Instructions::DecrementPtr)
    } else if c == '+' {
        Some(Instructions::IncrementByte)
    } else if c == '-' {
        Some(Instructions::DecrementByte)
    } else if c == '.' {
        Some(Instructions::OutputByte)
    } else if c == ',' {
        Some(Instructions::InputByte)
    } else if c == '[' {
        Some(Instructions::BeginLoop)
    } else if c == ']' {
        Some(Instructions::EndLoop)
    } else {
        None
    }
}

/// How an opcode changes the number of open loops.
pub open spec fn bracket_delta(op: Instructions) -> int {
    match op {
        Instructions::BeginLoop => 1,
        Instructions::EndLoop => -1,
        _ => 0,
    }
}

/// Open loops at the end of `p`: `BeginLoop`s minus `EndLoop`s.
pub open spec fn nesting(p: Seq<Instructions>) -> int
    decreases p.len(),
{
    if p.len() == 0 {
        0
    } else {
        nesting(p.drop_last()) + bracket_delta(p.last())
    }
}

/// No prefix of `p` closes more loops than it opened.
pub open spec fn never_negative(p: Seq<Instructions>) -> bool {
    forall|k: int| 0 <= k <= p.len() ==> #[trigger] nesting(p.take(k)) >= 0
}

/// Every `BeginLoop` has its `EndLoop` and vice versa: no prefix closes more
/// loops than it opened, and the whole sequence leaves none open.
pub open spec fn balanced(p: Seq<Instructions>) -> bool {
    nesting(p) == 0 && never_negative(p)
}

/// Decodes one source character.
pub fn decode(c: char) -> (op: Option<Instructions>)
    ensures
        op == opcode_of(c),
{
    match c {
        '>' => Some(Instructions::IncrementPtr),
        '<' => Some(Instructions::DecrementPtr),
        '+' => Some(Instructions::IncrementByte),
        '-' => Some(Instructions::DecrementByte),
        '.' => Some(Instructions::OutputByte),
        ',' => Some(Instructions::InputByte),
        '[' => Some(Instructions::BeginLoop),
        ']' => Some(Instructions::EndLoop),
        _ => None,
    }
}

impl ValidationError {
    /// The diagnostic text for this error.
    pub fn message(&self) -> (text: String)
        ensures
            text@ == match *self {
                ValidationError::UnmatchedCloseBracket => "Loop error: ']' without a matching '['."@,
                ValidationError::UnmatchedOpenBracket => "Loop error: '[' without a matching ']'."@,
            },
    {
        match self {
            ValidationError::UnmatchedCloseBracket => {
                "Loop error: ']' without a matching '['.".to_owned()
            },
            ValidationError::UnmatchedOpenBracket => {
                "Loop error: '[' without a matching ']'.".to_owned()
            },
        }
    }
}

} // verus!

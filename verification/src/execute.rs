//! Execution of a single opcode against the tape and the execution cursor.

use vstd::prelude::*;
use crate::opcode::{Instructions, TAPE_LEN, bracket_delta, nesting, balanced};

verus! {

/// The two indices of a run: the selected tape cell and the next opcode.
#[derive(Clone, Copy, Debug, PartialEq, Eq, Structural)]
pub struct Cursor {
    pub data_ptr: usize,
    pub instruction_ptr: usize,
}

/// What the caller has to do after a step.
#[derive(Clone, Copy, Debug, PartialEq, Eq, Structural)]
pub enum Action {
    /// The instruction pointer is past the last opcode; nothing was done.
    Halted,
    /// An opcode was executed and asks nothing of the caller.
    Advanced,
    /// An `OutputByte` was executed: emit this byte.
    Output(u8),
    /// The next opcode is `InputByte` and no byte was supplied; nothing was done.
    AwaitInput,
}

/// The machine as contracts see it.
pub struct State {
    pub tape: Seq<u8>,
    pub data_ptr: int,
    pub instruction_ptr: int,
}

/// The state made of a tape and a cursor.
pub open spec fn state_of(tape: Seq<u8>, cursor: Cursor) -> State {
    State {
        tape,
        data_ptr: cursor.data_ptr as int,
        instruction_ptr: cursor.instruction_ptr as int,
    }
}

/// Where a forward scan that starts at `pos` with `depth` loops still to
/// close leaves the instruction pointer: right after the `EndLoop` that
/// brings the depth to zero, or at the end of `p` if there is none.
pub open spec fn skip_forward(p: Seq<Instructions>, pos: int, depth: int) -> int
    decreases p.len() - pos,
{
    if pos < 0 || pos >= p.len() || depth <= 0 {
        pos
    } else if depth + bracket_delta(p[pos]) == 0 {
        pos + 1
    } else {
        skip_forward(p, pos + 1, depth + bracket_delta(p[pos]))
    }
}

/// Where a backward scan that starts at `pos` with `depth` loops still to
/// open leaves the instruction pointer: at the `BeginLoop` that brings the
/// depth to zero, or at the last index it looked at once it would have to
/// look below index 1.
pub open spec fn seek_backward(p: Seq<Instructions>, pos: int, depth: int) -> int
    decreases pos,
{
    if pos <= 0 || pos >= p.len() || depth <= 0 {
        pos
    } else if depth - bracket_delta(p[pos]) == 0 {
        pos
    } else {
        seek_backward(p, pos - 1, depth - bracket_delta(p[pos]))
    }
}

/// A cell value one higher, 255 wrapping to 0.
pub open spec fn cell_up(v: u8) -> u8 {
    if v == 255 {
        0
    } else {
        (v + 1) as u8
    }
}

/// A cell value one lower, 0 wrapping to 255.
pub open spec fn cell_down(v: u8) -> u8 {
    if v == 0 {
        255
    } else {
        (v - 1) as u8
    }
}

/// The effect of executing the opcode under the instruction pointer, given
/// the input byte on offer.
pub open spec fn step_spec(p: Seq<Instructions>, s: State, input: Option<u8>) -> (State, Action) {
    if s.instruction_ptr < 0 || s.instruction_ptr >= p.len() {
        (s, Action::Halted)
    } else {
        let next = s.instruction_ptr + 1;
        let cell = s.tape[s.data_ptr];
        match p[s.instruction_ptr] {
            Instructions::IncrementPtr => (
                State { data_ptr: (s.data_ptr + 1) % (TAPE_LEN as int), instruction_ptr: next, ..s },
                Action::Advanced,
            ),
            Instructions::DecrementPtr => (
                State {
                    data_ptr: (s.data_ptr + TAPE_LEN - 1) % (TAPE_LEN as int),
                    instruction_ptr: next,
                    ..s
                },
                Action::Advanced,
            ),
            Instructions::IncrementByte => (
                State { tape: s.tape.update(s.data_ptr, cell_up(cell)), instruction_ptr: next, ..s },
                Action::Advanced,
            ),
            Instructions::DecrementByte => (
                State { tape: s.tape.update(s.data_ptr, cell_down(cell)), instruction_ptr: next, ..s },
                Action::Advanced,
            ),
            Instructions::OutputByte => (State { instruction_ptr: next, ..s }, Action::Output(cell)),
            Instructions::InputByte => match input {
                Some(b) => (
                    State { tape: s.tape.update(s.data_ptr, b), instruction_ptr: next, ..s },
                    Action::Advanced,
                ),
                None => (s, Action::AwaitInput),
            },
            Instructions::BeginLoop => if cell == 0 {
                (
                    State { instruction_ptr: skip_forward(p, s.instruction_ptr + 1, 1), ..s },
                    Action::Advanced,
                )
            } else {
                (State { instruction_ptr: next, ..s }, Action::Advanced)
            },
            Instructions::EndLoop => if cell != 0 {
                (
                    State { instruction_ptr: seek_backward(p, s.instruction_ptr - 1, 1), ..s },
                    Action::Advanced,
                )
            } else {
                (State { instruction_ptr: next, ..s }, Action::Advanced)
            },
        }
    }
}

/// The opcode at `ip` is `InputByte`.
pub open spec fn at_input(p: Seq<Instructions>, ip: int) -> bool {
    0 <= ip < p.len() && p[ip] == Instructions::InputByte
}

/// Moving the data pointer wraps at both ends of the tape and never leaves
/// it: down from cell 0 is the last cell, up from the last cell is cell 0.
pub proof fn lemma_pointer_wraps(p: Seq<Instructions>, s: State, input: Option<u8>)
    requires
        0 <= s.instruction_ptr < p.len(),
        0 <= s.data_ptr < TAPE_LEN,
    ensures
        0 <= step_spec(p, s, input).0.data_ptr < TAPE_LEN,
        p[s.instruction_ptr] == Instructions::DecrementPtr && s.data_ptr == 0 ==> step_spec(
            p,
            s,
            input,
        ).0.data_ptr == TAPE_LEN - 1,
        p[s.instruction_ptr] == Instructions::IncrementPtr && s.data_ptr == TAPE_LEN - 1
            ==> step_spec(p, s, input).0.data_ptr == 0,
{
}

/// Cell arithmetic is modulo 256: incrementing 255 gives 0, decrementing 0
/// gives 255, and each undoes the other.
pub proof fn lemma_cell_wraps(v: u8)
    ensures
        cell_up(v) == (v + 1) % 256,
        cell_down(v) == (v + 255) % 256,
        cell_up(255) == 0,
        cell_down(0) == 255,
        cell_down(cell_up(v)) == v,
        cell_up(cell_down(v)) == v,
{
}

/// In a balanced sequence an `EndLoop` never stands first.
pub proof fn lemma_end_loop_not_first(p: Seq<Instructions>, i: int)
    requires
        balanced(p),
        0 <= i < p.len(),
        p[i] == Instructions::EndLoop,
    ensures
        i > 0,
{
    if i == 0 {
        let one = p.take(1);
        assert(one.drop_last().len() == 0);
        assert(nesting(one.drop_last()) == 0);
        assert(one.last() == p[0]);
        assert(nesting(one) == -1);
    }
}

/// A tape in its initial state: every cell zero.
pub fn blank_tape() -> (tape: [u8; 30000])
    ensures
        forall|i: int| 0 <= i < TAPE_LEN ==> tape@[i] == 0,
{
    [0u8; 30000]
}

impl Cursor {
    /// The cursor at the start of a run.
    pub fn new() -> (c: Cursor)
        ensures
            c.data_ptr == 0,
            c.instruction_ptr == 0,
    {
        Cursor { data_ptr: 0, instruction_ptr: 0 }
    }
}

/// The instruction pointer after skipping a loop whose `BeginLoop` is at
/// `begin`.
pub fn jump_past_loop(instructions: &Vec<Instructions>, begin: usize) -> (target: usize)
    requires
        begin < instructions.len(),
    ensures
        target == skip_forward(instructions@, begin + 1, 1),
        begin < target <= instructions.len(),
{
    let mut loop_depth: usize = 1;
    let mut temp_ptr: usize = begin + 1;
    while temp_ptr < instructions.len()
        invariant
            begin < temp_ptr <= instructions.len(),
            1 <= loop_depth <= temp_ptr - begin,
            skip_forward(instructions@, temp_ptr as int, loop_depth as int) == skip_forward(
                instructions@,
                begin + 1,
                1,
            ),
        decreases instructions.len() - temp_ptr,
    {
        match instructions[temp_ptr] {
            Instructions::BeginLoop => {
                loop_depth += 1;
            },
            Instructions::EndLoop => {
                loop_depth -= 1;
            },
            _ => {},
        }
        if loop_depth == 0 {
            return temp_ptr + 1;
        }
        temp_ptr += 1;
    }
    temp_ptr
}

/// The instruction pointer after jumping back from the `EndLoop` at `end` to
/// the start of its loop.
pub fn jump_to_loop_start(instructions: &Vec<Instructions>, end: usize) -> (target: usize)
    requires
        0 < end < instructions.len(),
    ensures
        target == seek_backward(instructions@, end - 1, 1),
        target < end,
{
    let mut loop_depth: usize = 1;
    let mut temp_ptr: usize = end - 1;
    while temp_ptr > 0
        invariant
            temp_ptr < end < instructions.len(),
            1 <= loop_depth <= end - temp_ptr,
            seek_backward(instructions@, temp_ptr as int, loop_depth as int) == seek_backward(
                instructions@,
                end - 1,
                1,
            ),
        decreases temp_ptr,
    {
        match instructions[temp_ptr] {
            Instructions::EndLoop => {
                loop_depth += 1;
            },
            Instructions::BeginLoop => {
                loop_depth -= 1;
            },
            _ => {},
        }
        if loop_depth == 0 {
            return temp_ptr;
        }
        temp_ptr -= 1;
    }
    temp_ptr
}

/// Whether the next step reads a byte, so that the caller has to offer one.
pub fn needs_input(instructions: &Vec<Instructions>, cursor: &Cursor) -> (b: bool)
    ensures
        b == at_input(instructions@, cursor.instruction_ptr as int),
{
    cursor.instruction_ptr < instructions.len() && matches!(
        instructions[cursor.instruction_ptr],
        Instructions::InputByte
    )
}

/// Executes the opcode under the instruction pointer, if there is one.
/// `input` is the byte on offer for an `InputByte`; it is ignored by every
/// other opcode.
pub fn step(
    instructions: &Vec<Instructions>,
    data_array: &mut [u8; 30000],
    cursor: &mut Cursor,
    input: Option<u8>,
) -> (action: Action)
    requires
        balanced(instructions@),
        old(cursor).data_ptr < TAPE_LEN,
    ensures
        (state_of(final(data_array)@, *final(cursor)), action) == step_spec(
            instructions@,
            state_of(old(data_array)@, *old(cursor)),
            input,
        ),
        final(cursor).data_ptr < TAPE_LEN,
        final(cursor).instruction_ptr <= instructions.len() || *final(cursor) == *old(cursor),
{
    let ip = cursor.instruction_ptr;
    let dp = cursor.data_ptr;
    if ip >= instructions.len() {
        return Action::Halted;
    }
    match instructions[ip] {
        Instructions::IncrementPtr => {
            cursor.data_ptr = (dp + 1) % TAPE_LEN;
            cursor.instruction_ptr = ip + 1;
            Action::Advanced
        },
        Instructions::DecrementPtr => {
            cursor.data_ptr = (dp + TAPE_LEN - 1) % TAPE_LEN;
            cursor.instruction_ptr = ip + 1;
            Action::Advanced
        },
        Instructions::IncrementByte => {
            data_array[dp] = data_array[dp].wrapping_add(1);
            cursor.instruction_ptr = ip + 1;
            Action::Advanced
        },
        Instructions::DecrementByte => {
            data_array[dp] = data_array[dp].wrapping_sub(1);
            cursor.instruction_ptr = ip + 1;
            Action::Advanced
        },
        Instructions::OutputByte => {
            cursor.instruction_ptr = ip + 1;
            Action::Output(data_array[dp])
        },
        Instructions::InputByte => {
            match input {
                Some(b) => {
                    data_array[dp] = b;
                    cursor.instruction_ptr = ip + 1;
                    Action::Advanced
                },
                None => Action::AwaitInput,
            }
        },
        Instructions::BeginLoop => {
            if data_array[dp] == 0 {
                cursor.instruction_ptr = jump_past_loop(instructions, ip);
            } else {
                cursor.instruction_ptr = ip + 1;
            }
            Action::Advanced
        },
        Instructions::EndLoop => {
            if data_array[dp] != 0 {
                proof {
                    lemma_end_loop_not_first(instructions@, ip as int);
                }
                cursor.instruction_ptr = jump_to_loop_start(instructions, ip);
            } else {
                cursor.instruction_ptr = ip + 1;
            }
            Action::Advanced
        },
    }
}

} // verus!

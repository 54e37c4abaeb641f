//! Running a whole program against a given input, within a step budget.

use vstd::prelude::*;
use crate::opcode::{Instructions, TAPE_LEN, balanced};
use crate::execute::{Action, Cursor, State, at_input, needs_input, state_of, step, step_spec};

verus! {

/// Why a run stopped.
#[derive(Clone, Copy, Debug, PartialEq, Eq, Structural)]
pub enum Status {
    /// The instruction pointer went past the last opcode.
    Halted,
    /// The next opcode is `InputByte` and the input is used up.
    InputExhausted,
    /// The step budget is spent and the program could go on.
    StepLimit,
}

/// What a run leaves behind, besides the tape.
#[derive(Debug)]
pub struct Report {
    pub cursor: Cursor,
    /// How many input bytes were read.
    pub consumed: usize,
    /// The bytes emitted, in program order.
    pub output: Vec<u8>,
    pub status: Status,
}

/// A machine state together with its dealings with the outside so far.
pub struct Config {
    pub state: State,
    pub consumed: int,
    pub output: Seq<u8>,
}

/// The input byte on offer once `consumed` bytes have been read.
pub open spec fn offered(input: Seq<u8>, consumed: int) -> Option<u8> {
    if 0 <= consumed < input.len() {
        Some(input[consumed])
    } else {
        None
    }
}

/// One step of a run: the opcode's effect on the state, the byte it reads
/// counted, the byte it emits appended. A halted machine, and one that waits
/// for input that is not there, stay as they are.
pub open spec fn advance(p: Seq<Instructions>, input: Seq<u8>, c: Config) -> Config {
    let (state, action) = step_spec(p, c.state, offered(input, c.consumed));
    Config {
        state,
        consumed: if at_input(p, c.state.instruction_ptr) && offered(input, c.consumed) is Some {
            c.consumed + 1
        } else {
            c.consumed
        },
        output: match action {
            Action::Output(b) => c.output.push(b),
            _ => c.output,
        },
    }
}

/// The configuration `n` steps after `c`.
pub open spec fn config_after(p: Seq<Instructions>, input: Seq<u8>, c: Config, n: nat) -> Config
    decreases n,
{
    if n == 0 {
        c
    } else {
        advance(p, input, config_after(p, input, c, (n - 1) as nat))
    }
}

/// The configuration a run starts from: both pointers at zero, nothing read,
/// nothing emitted.
pub open spec fn initial_config(tape: Seq<u8>) -> Config {
    Config {
        state: State { tape, data_ptr: 0, instruction_ptr: 0 },
        consumed: 0,
        output: Seq::empty(),
    }
}

/// Why a run that is in configuration `c` when it stops has stopped.
pub open spec fn status_of(p: Seq<Instructions>, input: Seq<u8>, c: Config) -> Status {
    if c.state.instruction_ptr < 0 || c.state.instruction_ptr >= p.len() {
        Status::Halted
    } else if at_input(p, c.state.instruction_ptr) && offered(input, c.consumed) is None {
        Status::InputExhausted
    } else {
        Status::StepLimit
    }
}

/// Once a step changes nothing, no later step does.
pub proof fn lemma_stuck_stays(p: Seq<Instructions>, input: Seq<u8>, c: Config, k: nat, n: nat)
    requires
        k <= n,
        advance(p, input, config_after(p, input, c, k)) == config_after(p, input, c, k),
    ensures
        config_after(p, input, c, n) == config_after(p, input, c, k),
    decreases n,
{
    if n > k {
        lemma_stuck_stays(p, input, c, k, (n - 1) as nat);
    }
}

/// A halted machine stays halted: past the last opcode a step changes
/// nothing.
pub proof fn lemma_halted_is_final(p: Seq<Instructions>, input: Seq<u8>, c: Config, n: nat)
    requires
        c.state.instruction_ptr >= p.len(),
    ensures
        config_after(p, input, c, n) == c,
{
    assert(config_after(p, input, c, 0) == c);
    lemma_stuck_stays(p, input, c, 0, n);
}

/// Running `n + m` steps is running `n` steps and then `m` more.
pub proof fn lemma_run_splits(p: Seq<Instructions>, input: Seq<u8>, c: Config, n: nat, m: nat)
    ensures
        config_after(p, input, c, n + m) == config_after(
            p,
            input,
            config_after(p, input, c, n),
            m,
        ),
    decreases m,
{
    if m > 0 {
        lemma_run_splits(p, input, c, n, (m - 1) as nat);
        assert(n + m - 1 == n + (m - 1) as nat);
    }
}

/// Runs `instructions` from the first opcode with the data pointer at cell 0,
/// reading from `input` and collecting what is emitted, for at most
/// `max_steps` opcodes. The run ends early when the program halts or asks for
/// a byte that `input` no longer has.
pub fn run(
    instructions: Vec<Instructions>,
    data_array: &mut [u8; 30000],
    input: &Vec<u8>,
    max_steps: usize,
) -> (report: Report)
    requires
        balanced(instructions@),
    ensures
        ({
            let end = config_after(
                instructions@,
                input@,
                initial_config(old(data_array)@),
                max_steps as nat,
            );
            &&& state_of(final(data_array)@, report.cursor) == end.state
            &&& report.consumed == end.consumed
            &&& report.output@ == end.output
            &&& report.status == status_of(instructions@, input@, end)
        }),
        report.cursor.data_ptr < TAPE_LEN,
        report.consumed <= input.len(),
{
    let ghost start = initial_config(data_array@);
    let mut cursor = Cursor::new();
    let mut consumed: usize = 0;
    let mut output: Vec<u8> = Vec::new();
    let mut steps: usize = 0;
    while steps < max_steps
        invariant
            balanced(instructions@),
            start == initial_config(old(data_array)@),
            cursor.data_ptr < TAPE_LEN,
            consumed <= input.len(),
            steps <= max_steps,
            (Config {
                state: state_of(data_array@, cursor),
                consumed: consumed as int,
                output: output@,
            }) == config_after(instructions@, input@, start, steps as nat),
        decreases max_steps - steps,
    {
        let reading = needs_input(&instructions, &cursor);
        let offer = if consumed < input.len() {
            Some(input[consumed])
        } else {
            None
        };
        let action = step(&instructions, data_array, &mut cursor, offer);
        match action {
            Action::Halted => {
                proof {
                    lemma_stuck_stays(instructions@, input@, start, steps as nat, max_steps as nat);
                }
                return Report { cursor, consumed, output, status: Status::Halted };
            },
            Action::AwaitInput => {
                proof {
                    lemma_stuck_stays(instructions@, input@, start, steps as nat, max_steps as nat);
                }
                return Report { cursor, consumed, output, status: Status::InputExhausted };
            },
            Action::Output(b) => {
                output.push(b);
            },
            Action::Advanced => {
                if reading {
                    consumed += 1;
                }
            },
        }
        steps += 1;
    }
    let status = if cursor.instruction_ptr >= instructions.len() {
        Status::Halted
    } else if consumed >= input.len() && needs_input(&instructions, &cursor) {
        Status::InputExhausted
    } else {
        Status::StepLimit
    };
    Report { cursor, consumed, output, status }
}

} // verus!

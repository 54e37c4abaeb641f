use brainf::dump::{digit_text, format_cell, memory_dump, push_decimal};
use brainf::execute::{blank_tape, jump_past_loop, jump_to_loop_start, needs_input, step, Action, Cursor};
use brainf::opcode::{Instructions, TAPE_LEN};
use brainf::run::{run, Status};
use brainf::source::has_source_extension;
use brainf::translate::parse_instructions;

fn program(source: &str) -> Vec<Instructions> {
    parse_instructions(source).unwrap()
}

#[test]
fn tape_has_thirty_thousand_cells() {
    assert_eq!(TAPE_LEN, 30000);
}

#[test]
fn cursor_starts_at_zero() {
    let c = Cursor::new();
    assert_eq!(c.data_ptr, 0);
    assert_eq!(c.instruction_ptr, 0);
}

#[test]
fn pointer_decrement_wraps_from_zero() {
    let p = program("<");
    let mut tape = [0u8; 30000];
    let mut c = Cursor::new();
    assert_eq!(step(&p, &mut tape, &mut c, None), Action::Advanced);
    assert_eq!(c, Cursor { data_ptr: 29999, instruction_ptr: 1 });
}

#[test]
fn pointer_increment_wraps_from_last_cell() {
    let p = program(">");
    let mut tape = [0u8; 30000];
    let mut c = Cursor { data_ptr: 29999, instruction_ptr: 0 };
    assert_eq!(step(&p, &mut tape, &mut c, None), Action::Advanced);
    assert_eq!(c, Cursor { data_ptr: 0, instruction_ptr: 1 });
}

#[test]
fn pointer_moves_by_one_inside_the_tape() {
    let p = program("><");
    let mut tape = [0u8; 30000];
    let mut c = Cursor { data_ptr: 7, instruction_ptr: 0 };
    step(&p, &mut tape, &mut c, None);
    assert_eq!(c, Cursor { data_ptr: 8, instruction_ptr: 1 });
    step(&p, &mut tape, &mut c, None);
    assert_eq!(c, Cursor { data_ptr: 7, instruction_ptr: 2 });
}

#[test]
fn cell_increment_wraps_at_256() {
    let p = program("+");
    let mut tape = [0u8; 30000];
    tape[3] = 255;
    let mut c = Cursor { data_ptr: 3, instruction_ptr: 0 };
    assert_eq!(step(&p, &mut tape, &mut c, None), Action::Advanced);
    assert_eq!(tape[3], 0);
    assert_eq!(c.instruction_ptr, 1);
}

#[test]
fn cell_decrement_wraps_to_255() {
    let p = program("-");
    let mut tape = [0u8; 30000];
    let mut c = Cursor::new();
    assert_eq!(step(&p, &mut tape, &mut c, None), Action::Advanced);
    assert_eq!(tape[0], 255);
    assert_eq!(c.instruction_ptr, 1);
}

#[test]
fn cell_arithmetic_changes_only_the_selected_cell() {
    let p = program("+-");
    let mut tape = [0u8; 30000];
    tape[4] = 9;
    tape[5] = 41;
    tape[6] = 9;
    let mut c = Cursor { data_ptr: 5, instruction_ptr: 0 };
    step(&p, &mut tape, &mut c, None);
    assert_eq!((tape[4], tape[5], tape[6]), (9, 42, 9));
    step(&p, &mut tape, &mut c, None);
    assert_eq!((tape[4], tape[5], tape[6]), (9, 41, 9));
}

#[test]
fn output_hands_out_the_selected_cell() {
    let p = program(".");
    let mut tape = [0u8; 30000];
    tape[2] = 200;
    let mut c = Cursor { data_ptr: 2, instruction_ptr: 0 };
    assert_eq!(step(&p, &mut tape, &mut c, Some(1)), Action::Output(200));
    assert_eq!(tape[2], 200);
    assert_eq!(c, Cursor { data_ptr: 2, instruction_ptr: 1 });
}

#[test]
fn input_stores_the_offered_byte() {
    let p = program(",");
    let mut tape = [0u8; 30000];
    let mut c = Cursor { data_ptr: 1, instruction_ptr: 0 };
    assert!(needs_input(&p, &c));
    assert_eq!(step(&p, &mut tape, &mut c, Some(77)), Action::Advanced);
    assert_eq!(tape[1], 77);
    assert_eq!(c, Cursor { data_ptr: 1, instruction_ptr: 1 });
    assert!(!needs_input(&p, &c));
}

#[test]
fn input_without_a_byte_waits() {
    let p = program(",");
    let mut tape = [0u8; 30000];
    tape[0] = 5;
    let mut c = Cursor::new();
    assert_eq!(step(&p, &mut tape, &mut c, None), Action::AwaitInput);
    assert_eq!(tape[0], 5);
    assert_eq!(c, Cursor::new());
}

#[test]
fn other_opcodes_ignore_the_offered_byte() {
    let p = program("+");
    let mut tape = [0u8; 30000];
    let mut c = Cursor::new();
    assert!(!needs_input(&p, &c));
    assert_eq!(step(&p, &mut tape, &mut c, Some(99)), Action::Advanced);
    assert_eq!(tape[0], 1);
}

#[test]
fn step_past_the_end_halts() {
    let p = program("+");
    let mut tape = [0u8; 30000];
    let mut c = Cursor { data_ptr: 0, instruction_ptr: 1 };
    assert_eq!(step(&p, &mut tape, &mut c, None), Action::Halted);
    assert_eq!(c, Cursor { data_ptr: 0, instruction_ptr: 1 });
    assert_eq!(tape[0], 0);
    let empty = program("");
    let mut c = Cursor::new();
    assert_eq!(step(&empty, &mut tape, &mut c, None), Action::Halted);
}

#[test]
fn loop_begin_on_zero_skips_past_the_matching_end() {
    let p = program("[+[-]+]>");
    let mut tape = [0u8; 30000];
    let mut c = Cursor::new();
    assert_eq!(step(&p, &mut tape, &mut c, None), Action::Advanced);
    assert_eq!(c, Cursor { data_ptr: 0, instruction_ptr: 7 });
    assert_eq!(jump_past_loop(&p, 0), 7);
    assert_eq!(jump_past_loop(&p, 2), 5);
}

#[test]
fn loop_begin_on_nonzero_enters_the_body() {
    let p = program("[-]");
    let mut tape = [0u8; 30000];
    tape[0] = 1;
    let mut c = Cursor::new();
    assert_eq!(step(&p, &mut tape, &mut c, None), Action::Advanced);
    assert_eq!(c.instruction_ptr, 1);
}

#[test]
fn loop_end_on_nonzero_jumps_back_to_the_matching_begin() {
    let p = program("+[[-]+]");
    let mut tape = [0u8; 30000];
    tape[0] = 1;
    let mut c = Cursor { data_ptr: 0, instruction_ptr: 6 };
    assert_eq!(step(&p, &mut tape, &mut c, None), Action::Advanced);
    assert_eq!(c, Cursor { data_ptr: 0, instruction_ptr: 1 });
    assert_eq!(jump_to_loop_start(&p, 6), 1);
    assert_eq!(jump_to_loop_start(&p, 4), 2);
}

#[test]
fn loop_end_jumps_back_to_a_begin_at_index_zero() {
    let p = program("[-]");
    let mut tape = [0u8; 30000];
    tape[0] = 3;
    let mut c = Cursor { data_ptr: 0, instruction_ptr: 2 };
    assert_eq!(step(&p, &mut tape, &mut c, None), Action::Advanced);
    assert_eq!(c.instruction_ptr, 0);
}

#[test]
fn loop_end_on_zero_leaves_the_loop() {
    let p = program("[-]");
    let mut tape = [0u8; 30000];
    let mut c = Cursor { data_ptr: 0, instruction_ptr: 2 };
    assert_eq!(step(&p, &mut tape, &mut c, None), Action::Advanced);
    assert_eq!(c.instruction_ptr, 3);
}

#[test]
fn moving_loop_transfers_one() {
    let mut tape = [0u8; 30000];
    let report = run(program("+[>+<-]"), &mut tape, &vec![], 1000);
    assert_eq!(report.status, Status::Halted);
    assert_eq!(tape[0], 0);
    assert_eq!(tape[1], 1);
    assert_eq!(report.cursor, Cursor { data_ptr: 0, instruction_ptr: 7 });
    assert_eq!(report.output, Vec::<u8>::new());
    assert_eq!(report.consumed, 0);
    assert_eq!(memory_dump(&tape), vec![(1, 1)]);
}

#[test]
fn moving_loop_needs_exactly_seven_steps() {
    let mut tape = [0u8; 30000];
    let report = run(program("+[>+<-]"), &mut tape, &vec![], 7);
    assert_eq!(report.status, Status::Halted);
    assert_eq!((tape[0], tape[1]), (0, 1));
    let mut tape = [0u8; 30000];
    let report = run(program("+[>+<-]"), &mut tape, &vec![], 6);
    assert_eq!(report.status, Status::StepLimit);
    assert_eq!(report.cursor, Cursor { data_ptr: 0, instruction_ptr: 6 });
    assert_eq!((tape[0], tape[1]), (0, 1));
}

#[test]
fn hello_world() {
    let source = "++++++++++[>+++++++>++++++++++>+++>+<<<<-]\
                  >++.>+.+++++++..+++.>++.<<+++++++++++++++.>.+++.------.--------.>+.>.";
    let mut tape = [0u8; 30000];
    let report = run(program(source), &mut tape, &vec![], 100000);
    assert_eq!(report.status, Status::Halted);
    assert_eq!(String::from_utf8(report.output).unwrap(), "Hello World!\n");
    assert_eq!(memory_dump(&tape), vec![(1, 87), (2, 100), (3, 33), (4, 10)]);
}

#[test]
fn hello_world_with_nested_loops() {
    let source = "++++++++[>++++[>++>+++>+++>+<<<<-]>+>+>->>+[<]<-]>>.>---.+++++++..+++.>>.<-.<.+++.------.--------.>>+.>++.";
    let mut tape = [0u8; 30000];
    let report = run(program(source), &mut tape, &vec![], 100000);
    assert_eq!(report.status, Status::Halted);
    assert_eq!(String::from_utf8(report.output).unwrap(), "Hello World!\n");
}

#[test]
fn endless_loop_stops_at_the_step_limit() {
    let mut tape = [0u8; 30000];
    let report = run(program("+[]"), &mut tape, &vec![], 100);
    assert_eq!(report.status, Status::StepLimit);
    assert_eq!(tape[0], 1);
    assert_eq!(report.cursor.instruction_ptr, 2);
}

#[test]
fn zero_steps_change_nothing() {
    let mut tape = [0u8; 30000];
    let report = run(program("+"), &mut tape, &vec![], 0);
    assert_eq!(report.status, Status::StepLimit);
    assert_eq!(report.cursor, Cursor::new());
    assert_eq!(tape[0], 0);
    let report = run(program(""), &mut tape, &vec![], 0);
    assert_eq!(report.status, Status::Halted);
    let report = run(program(","), &mut tape, &vec![], 0);
    assert_eq!(report.status, Status::InputExhausted);
}

#[test]
fn echo_reads_and_writes_in_order() {
    let mut tape = [0u8; 30000];
    let report = run(program(",.>,.>,."), &mut tape, &vec![b'a', b'b', b'c', b'd'], 100);
    assert_eq!(report.status, Status::Halted);
    assert_eq!(report.output, vec![b'a', b'b', b'c']);
    assert_eq!(report.consumed, 3);
    assert_eq!(memory_dump(&tape), vec![(0, 97), (1, 98), (2, 99)]);
}

#[test]
fn run_stops_when_input_runs_out() {
    let mut tape = [0u8; 30000];
    let report = run(program(",.,."), &mut tape, &vec![200], 100);
    assert_eq!(report.status, Status::InputExhausted);
    assert_eq!(report.output, vec![200]);
    assert_eq!(report.consumed, 1);
    assert_eq!(report.cursor, Cursor { data_ptr: 0, instruction_ptr: 2 });
    assert_eq!(tape[0], 200);
}

#[test]
fn run_wraps_the_pointer_and_the_cell() {
    let mut tape = [0u8; 30000];
    let report = run(program("<-"), &mut tape, &vec![], 10);
    assert_eq!(report.status, Status::Halted);
    assert_eq!(report.cursor.data_ptr, 29999);
    assert_eq!(memory_dump(&tape), vec![(29999, 255)]);
}

#[test]
fn memory_dump_lists_nonzero_cells_in_order() {
    let mut tape = [0u8; 30000];
    assert_eq!(memory_dump(&tape), vec![]);
    tape[29999] = 1;
    tape[0] = 255;
    tape[17] = 3;
    assert_eq!(memory_dump(&tape), vec![(0, 255), (17, 3), (29999, 1)]);
}

#[test]
fn source_extension() {
    assert!(has_source_extension("hello.bf"));
    assert!(has_source_extension("dir.d/hello.bf"));
    assert!(has_source_extension(".bf"));
    assert!(has_source_extension("bf"));
    assert!(has_source_extension("a.b.bf"));
    assert!(!has_source_extension(""));
    assert!(!has_source_extension("f"));
    assert!(!has_source_extension("abf"));
    assert!(!has_source_extension("hello.txt"));
    assert!(!has_source_extension("hello.bf.txt"));
    assert!(!has_source_extension("hello.bf."));
    assert!(!has_source_extension("hello.b"));
    assert!(!has_source_extension("hello.BF"));
    assert!(!has_source_extension("é.bff"));
    assert!(has_source_extension("é.bf"));
}

#[test]
fn dump_lines_are_index_and_value_in_decimal() {
    assert_eq!(format_cell(0, 1), "[0]: 1");
    assert_eq!(format_cell(9, 10), "[9]: 10");
    assert_eq!(format_cell(10, 100), "[10]: 100");
    assert_eq!(format_cell(29999, 255), "[29999]: 255");
    assert_eq!(format_cell(1203, 0), "[1203]: 0");
}

#[test]
fn decimal_digits() {
    assert_eq!(digit_text(0), "0");
    assert_eq!(digit_text(7), "7");
    assert_eq!(digit_text(9), "9");
    let mut text = String::from("n=");
    push_decimal(&mut text, 0);
    assert_eq!(text, "n=0");
    push_decimal(&mut text, 4096);
    assert_eq!(text, "n=04096");
    let mut text = String::new();
    push_decimal(&mut text, usize::MAX);
    assert_eq!(text, format!("{}", usize::MAX));
}

#[test]
fn hello_world_listing() {
    let source = "++++++++++[>+++++++>++++++++++>+++>+<<<<-]\
                  >++.>+.+++++++..+++.>++.<<+++++++++++++++.>.+++.------.--------.>+.>.";
    let mut tape = [0u8; 30000];
    run(program(source), &mut tape, &vec![], 100000);
    let lines: Vec<String> =
        memory_dump(&tape).into_iter().map(|(i, v)| format_cell(i, v)).collect();
    assert_eq!(lines, vec!["[1]: 87", "[2]: 100", "[3]: 33", "[4]: 10"]);
}

#[test]
fn blank_tape_is_all_zero() {
    let tape = blank_tape();
    assert_eq!(tape.len(), 30000);
    assert!(tape.iter().all(|&cell| cell == 0));
    assert_eq!(memory_dump(&tape), vec![]);
}

#[test]
fn forward_scan_without_a_partner_ends_at_the_program_end() {
    let p = vec![
        Instructions::BeginLoop,
        Instructions::IncrementByte,
        Instructions::BeginLoop,
        Instructions::EndLoop,
    ];
    assert_eq!(jump_past_loop(&p, 0), 4);
    assert_eq!(jump_past_loop(&p, 2), 4);
    let q = vec![Instructions::BeginLoop];
    assert_eq!(jump_past_loop(&q, 0), 1);
}

#[test]
fn backward_scan_without_a_partner_ends_at_index_zero() {
    let p = vec![
        Instructions::IncrementByte,
        Instructions::EndLoop,
        Instructions::IncrementByte,
        Instructions::EndLoop,
    ];
    assert_eq!(jump_to_loop_start(&p, 3), 0);
    assert_eq!(jump_to_loop_start(&p, 1), 0);
}

#[test]
fn nested_loops_clear_two_cells() {
    let mut tape = [0u8; 30000];
    tape[0] = 3;
    tape[1] = 200;
    let report = run(program("[>[-]<-]"), &mut tape, &vec![], 100000);
    assert_eq!(report.status, Status::Halted);
    assert_eq!(memory_dump(&tape), vec![]);
    assert_eq!(report.cursor, Cursor { data_ptr: 0, instruction_ptr: 8 });
}

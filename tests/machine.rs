use tapevm::{
    execute, parse, parse_program, Action, Command, Finish, Machine, RunError, TAPE_LEN,
};

const BUDGET: u64 = 1_000_000;

#[test]
fn parse_recognizes_each_symbol() {
    assert_eq!(parse(b'>'), Some(Command::MoveRight));
    assert_eq!(parse(b'<'), Some(Command::MoveLeft));
    assert_eq!(parse(b'+'), Some(Command::Increment));
    assert_eq!(parse(b'-'), Some(Command::Decrement));
    assert_eq!(parse(b'.'), Some(Command::Output));
    assert_eq!(parse(b','), Some(Command::Input));
    assert_eq!(parse(b'['), Some(Command::JumpIfZero));
    assert_eq!(parse(b']'), Some(Command::JumpIfNonZero));
}

#[test]
fn parse_drops_other_bytes() {
    for b in [b'a', b' ', b'\n', b'0', b'{', 0u8, 255u8] {
        assert_eq!(parse(b), None);
    }
}

#[test]
fn parse_program_keeps_order_and_skips_comments() {
    let program = parse_program(b"a+ b[>]\n-x");
    assert_eq!(
        program,
        vec![
            Command::Increment,
            Command::JumpIfZero,
            Command::MoveRight,
            Command::JumpIfNonZero,
            Command::Decrement,
        ]
    );
    assert!(parse_program(b"no commands here").is_empty());
}

#[test]
fn parse_is_deterministic_and_works_in_pieces() {
    let text = b"+++++ +++++ [ > +++++ +++++ < - ] > .";
    assert_eq!(parse_program(text), parse_program(text));
    let mut joined = parse_program(&text[..12]);
    joined.extend(parse_program(&text[12..]));
    assert_eq!(joined, parse_program(text));
}

#[test]
fn increment_then_decrement_restores_cell() {
    for v in [0u8, 1, 127, 254, 255] {
        let e = execute(b",+-.", &[v], BUDGET);
        assert_eq!(e.output, vec![v]);
        let e = execute(b",-+.", &[v], BUDGET);
        assert_eq!(e.output, vec![v]);
        assert_eq!(e.outcome, Ok(Finish::Halted));
    }
}

#[test]
fn increment_wraps_and_decrement_wraps() {
    let e = execute(b"-.+.", &[], BUDGET);
    assert_eq!(e.output, vec![255u8, 0u8]);
    assert_eq!(e.outcome, Ok(Finish::Halted));
}

#[test]
fn two_hundred_fifty_six_increments_return_to_zero() {
    let text = vec![b'+'; 256];
    let program = parse_program(&text);
    let mut m = Machine::new();
    let e = m.run(&program, &[], BUDGET);
    assert_eq!(e.outcome, Ok(Finish::Halted));
    assert_eq!(m.cell(0), 0);
    assert_eq!(m.pc(), 256);
}

#[test]
fn loop_moves_cell_value() {
    let program = parse_program(b"++[->+<]");
    let mut m = Machine::new();
    let e = m.run(&program, &[], BUDGET);
    assert_eq!(e.outcome, Ok(Finish::Halted));
    assert!(e.output.is_empty());
    assert_eq!(m.cell(0), 0);
    assert_eq!(m.cell(1), 2);
    assert_eq!(m.pointer(), 0);
}

#[test]
fn nested_loops_are_matched() {
    // 3 * 4 * 2 = 24 in cell 2, through a loop nested in a loop.
    let e = execute(b"+++[>++++[>++<-]<-]>>.", &[], BUDGET);
    assert_eq!(e.output, vec![24u8]);
    assert_eq!(e.outcome, Ok(Finish::Halted));
}

#[test]
fn skipped_loop_with_nested_brackets() {
    // Cell 0 is zero, so the whole loop, inner brackets included, is skipped.
    let e = execute(b"[[+]+[-]].+.", &[], BUDGET);
    assert_eq!(e.output, vec![0u8, 1u8]);
    assert_eq!(e.outcome, Ok(Finish::Halted));
}

#[test]
fn empty_program_halts_with_no_output() {
    let e = execute(b"", b"unused", BUDGET);
    assert!(e.output.is_empty());
    assert_eq!(e.outcome, Ok(Finish::Halted));
    let mut m = Machine::new();
    assert_eq!(m.step(&[], None), Ok(Action::Halt));
}

#[test]
fn echo_one_byte() {
    let e = execute(b",.", &[0x41], BUDGET);
    assert_eq!(e.output, b"A".to_vec());
    assert_eq!(e.outcome, Ok(Finish::Halted));
}

#[test]
fn ten_times_ten_is_d() {
    let e = execute(b"+++++ +++++ [ > +++++ +++++ < - ] > .", &[], BUDGET);
    assert_eq!(e.output, vec![100u8]);
    assert_eq!(e.output, b"d".to_vec());
    assert_eq!(e.outcome, Ok(Finish::Halted));
}

#[test]
fn exhausted_input_fails_after_earlier_output() {
    let e = execute(b"+.,.", &[], BUDGET);
    assert_eq!(e.output, vec![1u8]);
    assert_eq!(e.outcome, Err(RunError::EndOfInput { pc: 2 }));
}

#[test]
fn second_read_finds_input_exhausted() {
    let e = execute(b",.,.", &[7], BUDGET);
    assert_eq!(e.output, vec![7u8]);
    assert_eq!(e.outcome, Err(RunError::EndOfInput { pc: 2 }));
}

#[test]
fn unbalanced_open_bracket_fails() {
    let e = execute(b"[+", &[], BUDGET);
    assert!(e.output.is_empty());
    assert_eq!(e.outcome, Err(RunError::UnbalancedBrackets { pc: 0 }));
}

#[test]
fn unbalanced_close_bracket_fails() {
    let e = execute(b"+.]", &[], BUDGET);
    assert_eq!(e.output, vec![1u8]);
    assert_eq!(e.outcome, Err(RunError::UnbalancedBrackets { pc: 2 }));
}

#[test]
fn moving_left_of_first_cell_fails() {
    let e = execute(b"+<", &[], BUDGET);
    assert_eq!(e.outcome, Err(RunError::TapeBounds { pc: 1 }));
}

#[test]
fn moving_right_of_last_cell_fails() {
    let text = vec![b'>'; TAPE_LEN];
    let mut m = Machine::new();
    let e = m.run(&parse_program(&text), &[], BUDGET);
    assert_eq!(e.outcome, Err(RunError::TapeBounds { pc: TAPE_LEN - 1 }));
    assert_eq!(m.pointer(), TAPE_LEN - 1);
}

#[test]
fn endless_loop_stops_at_step_limit() {
    let e = execute(b"+[]", &[], 50);
    assert_eq!(e.outcome, Ok(Finish::StepLimit));
}

#[test]
fn stepping_by_hand() {
    let program = parse_program(b",+.");
    let mut m = Machine::default();
    assert!(m.wants_input(&program));
    assert_eq!(m.step(&program, Some(b'a')), Ok(Action::Continue));
    assert!(!m.wants_input(&program));
    assert_eq!(m.step(&program, None), Ok(Action::Continue));
    assert_eq!(m.char_at_p(), 'b');
    assert_eq!(m.step(&program, None), Ok(Action::Output(b'b')));
    assert_eq!(m.step(&program, None), Ok(Action::Halt));
    assert_eq!(m.pc(), 3);
}

#[test]
fn failed_step_leaves_machine_unchanged() {
    let program = parse_program(b"+,");
    let mut m = Machine::new();
    assert_eq!(m.step(&program, None), Ok(Action::Continue));
    assert_eq!(m.step(&program, None), Err(RunError::EndOfInput { pc: 1 }));
    assert_eq!(m.pc(), 1);
    assert_eq!(m.cell(0), 1);
}

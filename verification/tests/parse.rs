use bf_jit::{BrainfuckInstr, JitVmError};

#[test]
fn parses_every_instruction_character() {
    let code = BrainfuckInstr::from_str("><+-.,[]").unwrap();
    assert_eq!(
        code,
        vec![
            BrainfuckInstr::IncPtr,
            BrainfuckInstr::DecPtr,
            BrainfuckInstr::IncData,
            BrainfuckInstr::DecData,
            BrainfuckInstr::Output,
            BrainfuckInstr::Input,
            BrainfuckInstr::LoopStart,
            BrainfuckInstr::LoopEnd,
        ]
    );
}

#[test]
fn single_character_translation() {
    assert_eq!(
        BrainfuckInstr::try_from_char('+').unwrap(),
        BrainfuckInstr::IncData
    );
    let err = BrainfuckInstr::try_from_char('q').unwrap_err();
    match err {
        JitVmError::InvalidInstruction(c) => assert_eq!(c, 'q'),
        other => panic!("unexpected error: {:?}", other),
    }
}

#[test]
fn newlines_are_ignored() {
    let code = BrainfuckInstr::from_str("+\n+\n").unwrap();
    assert_eq!(code, vec![BrainfuckInstr::IncData, BrainfuckInstr::IncData]);
}

#[test]
fn empty_source_parses_to_empty_sequence() {
    let code = BrainfuckInstr::from_str("").unwrap();
    assert!(code.is_empty());
}

#[test]
fn unrecognized_character_reports_exactly_that_character() {
    let err = BrainfuckInstr::from_str("++x--").unwrap_err();
    match err {
        JitVmError::InvalidInstruction(c) => assert_eq!(c, 'x'),
        other => panic!("unexpected error: {:?}", other),
    }
}

#[test]
fn first_unrecognized_character_wins() {
    let err = BrainfuckInstr::from_str("+a+b").unwrap_err();
    match err {
        JitVmError::InvalidInstruction(c) => assert_eq!(c, 'a'),
        other => panic!("unexpected error: {:?}", other),
    }
}

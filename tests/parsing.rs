use bfi_rs::{lex, parse, Instruction, ParseError};

fn parse_source(source: &str) -> Result<Vec<Instruction>, ParseError> {
    parse(lex(String::from(source)))
}

fn plain_count(program: &[Instruction]) -> usize {
    program
        .iter()
        .map(|ins| match ins {
            Instruction::Loop(body) => plain_count(body),
            _ => 1,
        })
        .sum()
}

#[test]
fn lone_loop_end_is_unmatched_at_zero() {
    assert_eq!(parse_source("]").unwrap_err(), ParseError::UnmatchedLoopEnd(0));
}

#[test]
fn lone_loop_begin_is_unmatched_at_zero() {
    assert_eq!(parse_source("[").unwrap_err(), ParseError::UnmatchedLoopStart(0));
}

#[test]
fn extra_loop_end_reports_its_position() {
    assert_eq!(parse_source("+[]]").unwrap_err(), ParseError::UnmatchedLoopEnd(3));
}

#[test]
fn loop_end_before_begin_fails_first() {
    assert_eq!(parse_source("][").unwrap_err(), ParseError::UnmatchedLoopEnd(0));
}

#[test]
fn unclosed_start_reports_outermost_open_loop() {
    assert_eq!(parse_source("+[-[>]<").unwrap_err(), ParseError::UnmatchedLoopStart(1));
    assert_eq!(parse_source("[]+[").unwrap_err(), ParseError::UnmatchedLoopStart(3));
}

#[test]
fn positions_count_opcodes_not_characters() {
    assert_eq!(parse_source("ab ]").unwrap_err(), ParseError::UnmatchedLoopEnd(0));
}

#[test]
fn empty_program_parses_to_nothing() {
    assert!(parse_source("").unwrap().is_empty());
}

#[test]
fn empty_loop_is_legal() {
    let program = parse_source("[]").unwrap();
    assert_eq!(program.len(), 1);
    assert!(matches!(&program[0], Instruction::Loop(body) if body.is_empty()));
}

#[test]
fn nested_loops_become_nested_nodes() {
    let program = parse_source("+[-[>]<].").unwrap();
    assert_eq!(program.len(), 3);
    assert!(matches!(program[0], Instruction::Increment));
    assert!(matches!(program[2], Instruction::Write));
    match &program[1] {
        Instruction::Loop(body) => {
            assert_eq!(body.len(), 3);
            assert!(matches!(body[0], Instruction::Decrement));
            assert!(matches!(body[2], Instruction::DecrementPointer));
            match &body[1] {
                Instruction::Loop(inner) => {
                    assert_eq!(inner.len(), 1);
                    assert!(matches!(inner[0], Instruction::IncrementPointer));
                }
                other => panic!("expected a loop, found {:?}", other),
            }
        }
        other => panic!("expected a loop, found {:?}", other),
    }
}

#[test]
fn balanced_parse_keeps_every_command() {
    let source = "++[>+[-<,>]<.-]>>[[]]";
    let ops = lex(String::from(source));
    let plain = source.chars().filter(|c| "><+-.,".contains(*c)).count();
    let program = parse(ops).unwrap();
    assert_eq!(plain_count(&program), plain);
    assert_eq!(plain_count(&program), 13);
}

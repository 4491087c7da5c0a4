use bfi_rs::{lex, parse, Instruction, Machine, RunError, Step, TAPE_LEN};

/// Runs a machine to its end, feeding it `input` and collecting what it writes.
fn drive(machine: &mut Machine, input: &[u8]) -> Result<Vec<u8>, RunError> {
    let mut output = Vec::new();
    let mut bytes = input.iter().copied();
    loop {
        match machine.step()? {
            Step::Continue => {}
            Step::Output(byte) => output.push(byte),
            Step::NeedsInput => machine.supply(bytes.next())?,
            Step::Halted => return Ok(output),
        }
    }
}

fn machine_for(source: &str) -> Machine {
    Machine::new(parse(lex(String::from(source))).unwrap())
}

#[test]
fn fresh_machine_has_zeroed_tape() {
    let machine = machine_for("+");
    assert_eq!(machine.tape.len(), TAPE_LEN);
    assert_eq!(TAPE_LEN, 1024);
    assert!(machine.tape.iter().all(|&c| c == 0));
    assert_eq!(machine.pointer, 0);
}

#[test]
fn increment_wraps_from_255_to_0() {
    let mut machine = machine_for(&"+".repeat(255));
    drive(&mut machine, &[]).unwrap();
    assert_eq!(machine.tape[0], 255);
    let mut machine = machine_for(&"+".repeat(256));
    drive(&mut machine, &[]).unwrap();
    assert_eq!(machine.tape[0], 0);
}

#[test]
fn decrement_wraps_from_0_to_255() {
    let mut machine = machine_for("-");
    drive(&mut machine, &[]).unwrap();
    assert_eq!(machine.tape[0], 255);
}

#[test]
fn loop_runs_once_and_clears_cell() {
    let program = vec![Instruction::Increment, Instruction::Loop(vec![Instruction::Decrement])];
    let mut machine = Machine::new(program);
    let mut steps = 0;
    loop {
        match machine.step().unwrap() {
            Step::Halted => break,
            Step::Continue => steps += 1,
            other => panic!("unexpected step {:?}", other),
        }
    }
    // increment, enter loop, decrement, leave body, test again and move on
    assert_eq!(steps, 5);
    assert_eq!(machine.tape[0], 0);
}

#[test]
fn two_increments_then_write_outputs_two() {
    let mut machine = machine_for("++.");
    assert_eq!(drive(&mut machine, &[]).unwrap(), vec![2]);
    assert_eq!(machine.tape[0], 2);
}

#[test]
fn copy_loop_moves_value_to_next_cell() {
    let mut machine = machine_for("+[>+<-]");
    assert!(drive(&mut machine, &[]).unwrap().is_empty());
    assert_eq!(machine.tape[0], 0);
    assert_eq!(machine.tape[1], 1);
    assert_eq!(machine.pointer, 0);
}

#[test]
fn read_with_no_input_is_exhausted() {
    let mut machine = machine_for(",");
    assert_eq!(drive(&mut machine, &[]), Err(RunError::InputExhausted));
}

#[test]
fn read_stores_the_next_input_byte() {
    let mut machine = machine_for(",.,+.");
    assert_eq!(drive(&mut machine, &[b'a', 200]).unwrap(), vec![b'a', 201]);
}

#[test]
fn read_waits_until_supplied() {
    let mut machine = machine_for(",");
    assert_eq!(machine.step(), Ok(Step::NeedsInput));
    assert_eq!(machine.step(), Ok(Step::NeedsInput));
    assert_eq!(machine.supply(Some(7)), Ok(()));
    assert_eq!(machine.tape[0], 7);
    assert_eq!(machine.step(), Ok(Step::Halted));
}

#[test]
fn moving_left_of_cell_zero_fails() {
    let mut machine = machine_for("<");
    assert_eq!(drive(&mut machine, &[]), Err(RunError::PointerOutOfBounds));
    assert_eq!(machine.pointer, 0);
}

#[test]
fn moving_past_the_last_cell_fails() {
    let mut machine = machine_for(&">".repeat(TAPE_LEN - 1));
    drive(&mut machine, &[]).unwrap();
    assert_eq!(machine.pointer, TAPE_LEN - 1);
    let mut machine = machine_for(&">".repeat(TAPE_LEN));
    assert_eq!(drive(&mut machine, &[]), Err(RunError::PointerOutOfBounds));
    assert_eq!(machine.pointer, TAPE_LEN - 1);
}

#[test]
fn halted_machine_stays_halted() {
    let mut machine = machine_for("");
    assert_eq!(machine.step(), Ok(Step::Halted));
    assert_eq!(machine.step(), Ok(Step::Halted));
}

#[test]
fn nested_loops_multiply() {
    // 3 * 4 into cell 2, then print it
    let mut machine = machine_for("+++[>++++[>+<-]<-]>>.");
    assert_eq!(drive(&mut machine, &[]).unwrap(), vec![12]);
    assert_eq!(machine.tape[0], 0);
    assert_eq!(machine.tape[1], 0);
}

#[test]
fn hello_prints_text() {
    let source = "++++++++[>++++[>++>+++>+++>+<<<<-]>+>+>->>+[<]<-]>>.>---.+++++++..+++.";
    let mut machine = machine_for(source);
    assert_eq!(drive(&mut machine, &[]).unwrap(), b"Hello".to_vec());
}

use std::collections::HashMap;

use brainfuck::errors::VmError;
use brainfuck::executor::execute;
use brainfuck::instruction::Instruction;
use brainfuck::jump_table::make_jump_table;

#[test]
fn can_convert_char_into_inst() {
    assert_eq!(Instruction::MoveToRight, '>'.into());
    assert_eq!(Instruction::MoveToLeft, '<'.into());
    assert_eq!(Instruction::Increment, '+'.into());
    assert_eq!(Instruction::Decrement, '-'.into());
    assert_eq!(Instruction::LoopBegin, '['.into());
    assert_eq!(Instruction::LoopEnd, ']'.into());
    assert_eq!(Instruction::Output, '.'.into());
    assert_eq!(Instruction::Input, ','.into());
    assert_eq!(Instruction::Ignore(' '), ' '.into());
    assert_eq!(Instruction::Ignore('x'), 'x'.into());
}

#[test]
fn can_parse_string() {
    assert!(Instruction::parse("") == Vec::new());
    assert_eq!(
        vec![
            Instruction::MoveToRight,
            Instruction::MoveToLeft,
            Instruction::Increment,
            Instruction::Decrement,
            Instruction::Output,
            Instruction::Input,
            Instruction::LoopBegin,
            Instruction::LoopEnd,
            Instruction::Ignore(' '),
        ],
        Instruction::parse("><+-.,[] ")
    );
}

#[test]
fn empty() {
    let context = execute("").unwrap();
    assert_eq!(true, context.tape.is_empty());
    assert_eq!(0, context.tape.head);
    assert_eq!(0, context.output.len())
}

#[test]
fn one() {
    let context = execute("+-+").unwrap();
    let mut tape = HashMap::new();
    tape.insert(0, 1);
    assert_eq!(tape, context.tape.map);
    assert_eq!(0, context.tape.head);
    assert_eq!(0, context.output.len())
}

#[test]
fn head1() {
    let context = execute("><>").unwrap();
    assert_eq!(true, context.tape.is_empty());
    assert_eq!(1, context.tape.head);
    assert_eq!(0, context.output.len())
}

#[test]
fn print_0() {
    let context = execute(".").unwrap();
    assert_eq!(true, context.tape.is_empty());
    assert_eq!(0, context.tape.head);
    assert_eq!(vec![0u8], context.output);
}

#[test]
fn print_1() {
    let context = execute("+.").unwrap();
    assert_eq!(false, context.tape.is_empty());
    assert_eq!(0, context.tape.head);
    assert_eq!(vec![1u8], context.output);
}

#[test]
fn empty_loop() {
    let context = execute("[]").unwrap();
    assert_eq!(true, context.tape.is_empty());
    assert_eq!(0, context.tape.head);
    assert_eq!(0, context.output.len())
}

#[test]
fn jump() {
    assert!(make_jump_table(&Instruction::parse("")) == Ok(HashMap::new()));
    {
        let mut map = HashMap::new();
        map.insert(0, 1);
        map.insert(1, 0);
        assert_eq!(Ok(map), make_jump_table(&Instruction::parse("[]")));
    }
    {
        let mut map = HashMap::new();
        map.insert(0, 3);
        map.insert(3, 0);
        map.insert(1, 2);
        map.insert(2, 1);
        assert_eq!(Ok(map), make_jump_table(&Instruction::parse("[[]]")));
    }
    assert_eq!(
        Err(VmError::UnmatchedLoopBegin(vec![0])),
        make_jump_table(&Instruction::parse("["))
    );
    assert_eq!(
        Err(VmError::UnmatchedLoopEnd(0)),
        make_jump_table(&Instruction::parse("]"))
    );
}

use std::collections::HashMap;

use brainfuck::context::Context;
use brainfuck::errors::VmError;
use brainfuck::executor::execute;
use brainfuck::executor::execute_bounded;
use brainfuck::executor::execute_with;
use brainfuck::executor::execute_with_input;
use brainfuck::executor::ExecStatus;
use brainfuck::instruction::Instruction;
use brainfuck::tape::Tape;

#[test]
fn counts_increments_into_one_output_byte() {
    let program = format!("{}{}", "+".repeat(5), ".");
    let context = execute(&program).unwrap();
    assert_eq!(vec![5u8], context.output);
}

#[test]
fn increment_wraps_around_at_256() {
    let program = format!("{}{}", "+".repeat(256), ".");
    let context = execute(&program).unwrap();
    assert_eq!(vec![0u8], context.output);
}

#[test]
fn decrement_wraps_zero_to_255() {
    let context = execute("-.").unwrap();
    assert_eq!(vec![255u8], context.output);
}

#[test]
fn drain_loop_ends_with_cell_zero() {
    let context = execute("+[-]").unwrap();
    assert_eq!(0, context.tape.head);
    assert_eq!(0, context.tape.read());
    assert_eq!(0, context.output.len());
}

#[test]
fn loop_body_runs_until_cell_drained() {
    let context = execute("+++[.-]").unwrap();
    assert_eq!(false, context.tape.is_empty());
    assert_eq!(0, context.tape.head);
    assert_eq!(vec![3u8, 2u8, 1u8], context.output);
}

#[test]
fn nested_loop_prints_letter() {
    let context = execute("++++++[>++++++++++<-]>+++++.").unwrap();
    assert_eq!(false, context.tape.is_empty());
    assert_eq!(1, context.tape.head);
    assert_eq!(vec![65u8], context.output);
}

#[test]
fn moving_left_of_origin_is_allowed() {
    let context = execute("<+.").unwrap();
    assert_eq!(-1, context.tape.head);
    assert_eq!(vec![1u8], context.output);
    let mut cells = HashMap::new();
    cells.insert(-1, 1);
    assert_eq!(cells, context.tape.map);
}

#[test]
fn input_bytes_are_consumed_in_order() {
    let context = execute_with_input(",.,.", vec![7, 9]).unwrap();
    assert_eq!(vec![7u8, 9u8], context.output);
}

#[test]
fn exhausted_input_reads_zero() {
    let context = execute_with_input("+,.", vec![]).unwrap();
    assert_eq!(vec![0u8], context.output);
}

#[test]
fn unknown_characters_do_nothing() {
    let context = execute("+a b?+.").unwrap();
    assert_eq!(vec![2u8], context.output);
}

#[test]
fn writing_zero_still_materializes_a_cell() {
    let context = execute("+-").unwrap();
    assert_eq!(false, context.tape.is_empty());
    assert_eq!(1, context.tape.len());
    assert_eq!(0, context.tape.read());
}

#[test]
fn unmatched_begin_stops_execution() {
    assert_eq!(Err(VmError::UnmatchedLoopBegin(vec![0, 1])), execute("[["));
    assert_eq!(Err(VmError::UnmatchedLoopBegin(vec![0])), execute("[[]"));
}

#[test]
fn unmatched_end_reports_its_index() {
    assert_eq!(Err(VmError::UnmatchedLoopEnd(2)), execute("[]]"));
}

#[test]
fn head_underflow_is_reported_at_the_edge() {
    let mut tape = Tape::new();
    tape.head = i64::MIN;
    assert_eq!(Err(VmError::HeadUnderflow), tape.move_to_left());
    assert_eq!(i64::MIN, tape.head);
}

#[test]
fn head_overflow_is_reported_at_the_edge() {
    let mut tape = Tape::new();
    tape.head = i64::MAX;
    assert_eq!(Err(VmError::HeadOverflow), tape.move_to_right());
    assert_eq!(i64::MAX, tape.head);
}

#[test]
fn output_method_appends_current_cell() {
    let mut context = Context::new();
    context.output();
    assert_eq!(vec![0u8], context.output);
}

#[test]
fn step_budget_cuts_off_an_endless_loop() {
    let program = Instruction::parse("+[]");
    let r = execute_bounded(Context::new(), &program, 1000);
    assert!(matches!(r, Ok(ExecStatus::Exhausted(_))));
}

#[test]
fn ample_budget_lets_a_program_halt() {
    let program = Instruction::parse("+-");
    let r = execute_bounded(Context::new(), &program, 1000);
    match r {
        Ok(ExecStatus::Halted(context)) => {
            assert_eq!(0, context.tape.read());
            assert_eq!(1, context.tape.len());
        }
        _ => panic!("expected a halted run"),
    }
}

#[test]
fn execute_with_runs_parsed_instructions() {
    let program = Instruction::parse("+.");
    let context = execute_with(Context::new(), &program).unwrap();
    assert_eq!(vec![1u8], context.output);
}

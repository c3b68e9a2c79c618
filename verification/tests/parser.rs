use aocrs::intcode::{Fault, MemoryManager, Op, Param, Parser};

fn decode(cells: Vec<isize>, at: usize) -> Result<Op, Fault> {
    let memory = MemoryManager::new(&cells);
    Parser::new(&memory).parse_op(at)
}

#[test]
fn test_parse_op_sum() {
    let op = decode(vec![1, 4, 5, 6, 2, 243, 0], 0);
    assert_eq!(
        op,
        Ok(Op::Sum(Param::PositionMode(4), Param::PositionMode(5), 6))
    );
}

#[test]
fn test_parse_op_multiply() {
    let op = decode(vec![2, 4, 5, 6, 2, 243, 0], 0);
    assert_eq!(
        op,
        Ok(Op::Multiply(Param::PositionMode(4), Param::PositionMode(5), 6))
    );
}

#[test]
fn test_parse_op_halt() {
    let op = decode(vec![99, 4, 5, 6, 2, 243, 0], 0);
    assert_eq!(op, Ok(Op::Halt));
}

#[test]
fn mixed_modes_are_read_right_to_left() {
    let op = decode(vec![1002, 4, 3, 4, 33], 0);
    assert_eq!(
        op,
        Ok(Op::Multiply(Param::PositionMode(4), Param::ImmediateMode(3), 4))
    );
    let op = decode(vec![101, -5, 0, 0], 0);
    assert_eq!(
        op,
        Ok(Op::Sum(Param::ImmediateMode(-5), Param::PositionMode(0), 0))
    );
    let op = decode(vec![1101, 7, 8, 3], 0);
    assert_eq!(
        op,
        Ok(Op::Sum(Param::ImmediateMode(7), Param::ImmediateMode(8), 3))
    );
}

#[test]
fn halt_at_any_position_whatever_follows() {
    assert_eq!(decode(vec![99], 0), Ok(Op::Halt));
    assert_eq!(decode(vec![1, 0, 0, 0, 99], 4), Ok(Op::Halt));
    assert_eq!(decode(vec![7, 99, -3, 500, 8], 1), Ok(Op::Halt));
    assert_eq!(decode(vec![199, 1], 0), Ok(Op::Halt));
    assert_eq!(decode(vec![22299], 0), Ok(Op::Halt));
}

#[test]
fn decoding_in_the_middle_of_the_tape() {
    let op = decode(vec![99, 0, 2, 1, 0, 5, 99], 2);
    assert_eq!(
        op,
        Ok(Op::Multiply(Param::PositionMode(1), Param::PositionMode(0), 5))
    );
}

#[test]
fn input_and_output() {
    assert_eq!(decode(vec![3, 2, 0], 0), Ok(Op::Input(2)));
    assert_eq!(decode(vec![103, 2, 0], 0), Ok(Op::Input(2)));
    assert_eq!(
        decode(vec![4, 2, 0], 0),
        Ok(Op::Output(Param::PositionMode(2)))
    );
    assert_eq!(
        decode(vec![104, -9, 0], 0),
        Ok(Op::Output(Param::ImmediateMode(-9)))
    );
}

#[test]
fn unused_mode_digits_are_ignored() {
    assert_eq!(
        decode(vec![50001, 1, 2, 3], 0),
        Ok(Op::Sum(Param::PositionMode(1), Param::PositionMode(2), 3))
    );
    assert_eq!(decode(vec![903, 1], 0), Ok(Op::Input(1)));
    assert_eq!(
        decode(vec![7104, 1], 0),
        Ok(Op::Output(Param::ImmediateMode(1)))
    );
}

#[test]
fn unknown_opcodes() {
    assert_eq!(decode(vec![0], 0), Err(Fault::UnknownOpcode(0)));
    assert_eq!(decode(vec![5, 0, 0, 0], 0), Err(Fault::UnknownOpcode(5)));
    assert_eq!(decode(vec![98], 0), Err(Fault::UnknownOpcode(98)));
    assert_eq!(decode(vec![1100], 0), Err(Fault::UnknownOpcode(0)));
    assert_eq!(decode(vec![12345], 0), Err(Fault::UnknownOpcode(45)));
}

#[test]
fn negative_cells_name_no_operation() {
    assert_eq!(decode(vec![-1, 0, 0, 0], 0), Err(Fault::UnknownOpcode(-1)));
    assert_eq!(decode(vec![-99], 0), Err(Fault::UnknownOpcode(-99)));
    assert_eq!(decode(vec![-199], 0), Err(Fault::UnknownOpcode(-99)));
    assert_eq!(decode(vec![-100], 0), Err(Fault::UnknownOpcode(0)));
    assert_eq!(decode(vec![-1001, 0, 0, 0], 0), Err(Fault::UnknownOpcode(-1)));
    assert_eq!(
        decode(vec![isize::MIN], 0),
        Err(Fault::UnknownOpcode(isize::MIN % 100))
    );
}

#[test]
fn mode_digits_other_than_0_and_1_are_refused() {
    assert_eq!(decode(vec![201, 0, 0, 0], 0), Err(Fault::InvalidMode(2)));
    assert_eq!(decode(vec![9002, 0, 0, 0], 0), Err(Fault::InvalidMode(9)));
    assert_eq!(decode(vec![304, 0], 0), Err(Fault::InvalidMode(3)));
    assert_eq!(decode(vec![2101, 0, 0, 0], 0), Err(Fault::InvalidMode(2)));
}

#[test]
fn the_first_operand_that_fails_decides() {
    assert_eq!(decode(vec![1, 9, 8, 7], 0), Err(Fault::InvalidReference(9)));
    assert_eq!(decode(vec![1, 0, 8, 7], 0), Err(Fault::InvalidReference(8)));
    assert_eq!(decode(vec![1, 0, 0, 7], 0), Err(Fault::InvalidReference(7)));
    assert_eq!(decode(vec![2201, 9, 8, 7], 0), Err(Fault::InvalidMode(2)));
    assert_eq!(decode(vec![2001, 9, 8, 7], 0), Err(Fault::InvalidReference(9)));
    assert_eq!(decode(vec![2001, 0, 8, 7], 0), Err(Fault::InvalidMode(2)));
    assert_eq!(decode(vec![201], 0), Err(Fault::InvalidMode(2)));
}

#[test]
fn operands_past_the_end() {
    assert_eq!(decode(vec![], 0), Err(Fault::OutOfBounds(0)));
    assert_eq!(decode(vec![99], 1), Err(Fault::OutOfBounds(1)));
    assert_eq!(decode(vec![1], 0), Err(Fault::OutOfBounds(1)));
    assert_eq!(decode(vec![1, 0], 0), Err(Fault::OutOfBounds(2)));
    assert_eq!(decode(vec![1, 0, 0], 0), Err(Fault::OutOfBounds(3)));
    assert_eq!(decode(vec![1101, 5, 5], 0), Err(Fault::OutOfBounds(3)));
    assert_eq!(decode(vec![3], 0), Err(Fault::OutOfBounds(1)));
    assert_eq!(decode(vec![104], 0), Err(Fault::OutOfBounds(1)));
    assert_eq!(
        decode(vec![99], usize::MAX),
        Err(Fault::OutOfBounds(usize::MAX))
    );
}

#[test]
fn read_parameter_by_flag() {
    let memory = MemoryManager::new(&vec![2, -4, 77]);
    let parser = Parser::new(&memory);
    assert_eq!(parser.read_parameter(0, 0), Ok(Param::PositionMode(2)));
    assert_eq!(parser.read_parameter(0, 1), Ok(Param::ImmediateMode(2)));
    assert_eq!(parser.read_parameter(1, 1), Ok(Param::ImmediateMode(-4)));
    assert_eq!(
        parser.read_parameter(1, 0),
        Err(Fault::InvalidReference(-4))
    );
    assert_eq!(
        parser.read_parameter(2, 0),
        Err(Fault::InvalidReference(77))
    );
    assert_eq!(parser.read_parameter(3, 1), Err(Fault::OutOfBounds(3)));
    assert_eq!(parser.read_parameter(3, 0), Err(Fault::OutOfBounds(3)));
    assert_eq!(parser.read_parameter(0, 2), Err(Fault::InvalidMode(2)));
    assert_eq!(parser.read_parameter(9, 7), Err(Fault::InvalidMode(7)));
}

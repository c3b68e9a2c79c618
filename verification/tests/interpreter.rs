use aocrs::intcode::{Fault, Interpreter, Param, Signal, Supplied};

#[test]
fn test_execute() {
    let programs: Vec<(Vec<isize>, Vec<isize>)> = vec![
        (vec![99], vec![99]),
        (vec![1, 5, 6, 0, 99, 3, 7], vec![10, 5, 6, 0, 99, 3, 7]),
        (
            vec![1, 9, 10, 3, 2, 3, 11, 0, 99, 30, 40, 50],
            vec![3500, 9, 10, 70, 2, 3, 11, 0, 99, 30, 40, 50],
        ),
        (vec![1, 0, 0, 0, 99], vec![2, 0, 0, 0, 99]),
        (vec![2, 3, 0, 3, 99], vec![2, 3, 0, 6, 99]),
        (vec![2, 4, 4, 5, 99, 0], vec![2, 4, 4, 5, 99, 9801]),
        (
            vec![1, 1, 1, 4, 99, 5, 6, 0, 99],
            vec![30, 1, 1, 4, 2, 5, 6, 0, 99],
        ),
    ];

    for (starting_memory, end_memory) in programs {
        let mut program = Interpreter::from_bytecode(&starting_memory);
        let report = program.execute();
        assert_eq!(report, Ok(Signal::Halted));
        assert_eq!(program.dump(), end_memory)
    }
}

#[test]
fn test_execute_2() {
    let mut prg = Interpreter::from_string("1002,4,3,4,33");
    let report = prg.execute();
    assert_eq!(report, Ok(Signal::Halted));
    assert_eq!(prg.dump(), vec![1002, 4, 3, 4, 99]);
}

#[test]
fn halt_leaves_tape_and_pointer() {
    let tape: Vec<isize> = vec![99, -7, 1_000_000, 0, 3];
    let mut vm = Interpreter::from_bytecode(&tape);
    assert_eq!(vm.execute(), Ok(Signal::Halted));
    assert_eq!(vm.dump(), tape);
    assert_eq!(vm.instruction_pointer(), 0);
    assert_eq!(vm.execute(), Ok(Signal::Halted));
    assert_eq!(vm.dump(), tape);
}

#[test]
fn halted_pointer_rests_on_the_halt() {
    let mut vm = Interpreter::from_bytecode(&vec![1, 0, 0, 0, 2, 0, 0, 0, 99]);
    assert_eq!(vm.execute(), Ok(Signal::Halted));
    assert_eq!(vm.instruction_pointer(), 8);
    assert_eq!(vm.dump(), vec![4, 0, 0, 0, 2, 0, 0, 0, 99]);
}

#[test]
fn snapshot_twice_is_equal() {
    let mut vm = Interpreter::from_bytecode(&vec![1, 0, 0, 0, 99]);
    assert_eq!(vm.dump(), vm.dump());
    assert_eq!(vm.execute(), Ok(Signal::Halted));
    let first = vm.dump();
    let second = vm.dump();
    assert_eq!(first, second);
    assert_eq!(first, vec![2, 0, 0, 0, 99]);
}

#[test]
fn read_and_write_are_bounds_checked() {
    let mut vm = Interpreter::from_bytecode(&vec![1, 0, 0, 0, 99]);
    assert_eq!(vm.read(0), Ok(1));
    assert_eq!(vm.read(4), Ok(99));
    assert_eq!(vm.read(5), Err(Fault::OutOfBounds(5)));
    assert_eq!(vm.write(5, 1), Err(Fault::OutOfBounds(5)));
    assert_eq!(vm.dump(), vec![1, 0, 0, 0, 99]);
    assert_eq!(vm.write(1, 4), Ok(()));
    assert_eq!(vm.read(1), Ok(4));
    assert_eq!(vm.dump(), vec![1, 4, 0, 0, 99]);
    assert_eq!(vm.instruction_pointer(), 0);
}

#[test]
fn seeding_before_the_run() {
    let mut vm = Interpreter::from_bytecode(&vec![1, 0, 0, 0, 99, 20, 22]);
    assert_eq!(vm.write(1, 5), Ok(()));
    assert_eq!(vm.write(2, 6), Ok(()));
    assert_eq!(vm.execute(), Ok(Signal::Halted));
    assert_eq!(vm.read(0), Ok(42));
}

#[test]
fn empty_program_faults_at_once() {
    let mut vm = Interpreter::from_bytecode(&vec![]);
    assert_eq!(vm.execute(), Err(Fault::OutOfBounds(0)));
    let mut vm = Interpreter::from_string("");
    assert_eq!(vm.execute(), Err(Fault::OutOfBounds(0)));
    assert_eq!(vm.dump(), Vec::<isize>::new());
}

#[test]
fn running_off_the_tape_faults() {
    let mut vm = Interpreter::from_bytecode(&vec![1, 0, 0, 0]);
    assert_eq!(vm.execute(), Err(Fault::OutOfBounds(4)));
    assert_eq!(vm.dump(), vec![2, 0, 0, 0]);
    assert_eq!(vm.instruction_pointer(), 4);
}

#[test]
fn unknown_opcode_faults_where_it_stands() {
    let mut vm = Interpreter::from_bytecode(&vec![1, 0, 0, 0, 5, 0, 0, 0, 99]);
    assert_eq!(vm.execute(), Err(Fault::UnknownOpcode(5)));
    assert_eq!(vm.dump(), vec![2, 0, 0, 0, 5, 0, 0, 0, 99]);
    assert_eq!(vm.instruction_pointer(), 4);
    assert_eq!(vm.execute(), Err(Fault::UnknownOpcode(5)));
}

#[test]
fn bad_reference_faults_before_any_write() {
    let mut vm = Interpreter::from_bytecode(&vec![1, 0, 0, 9, 99]);
    assert_eq!(vm.execute(), Err(Fault::InvalidReference(9)));
    assert_eq!(vm.dump(), vec![1, 0, 0, 9, 99]);
    let mut vm = Interpreter::from_bytecode(&vec![2, -1, 0, 0, 99]);
    assert_eq!(vm.execute(), Err(Fault::InvalidReference(-1)));
    assert_eq!(vm.dump(), vec![2, -1, 0, 0, 99]);
}

#[test]
fn overflow_is_a_fault() {
    let mut vm = Interpreter::from_bytecode(&vec![1101, isize::MAX, 1, 0, 99]);
    assert_eq!(vm.execute(), Err(Fault::Overflow));
    assert_eq!(vm.dump(), vec![1101, isize::MAX, 1, 0, 99]);
    assert_eq!(vm.instruction_pointer(), 0);
    let mut vm = Interpreter::from_bytecode(&vec![1102, isize::MIN, -1, 0, 99]);
    assert_eq!(vm.execute(), Err(Fault::Overflow));
    let mut vm = Interpreter::from_bytecode(&vec![1101, isize::MAX, 0, 0, 99]);
    assert_eq!(vm.execute(), Ok(Signal::Halted));
    assert_eq!(vm.read(0), Ok(isize::MAX));
    let mut vm = Interpreter::from_bytecode(&vec![1101, isize::MIN, 0, 0, 99]);
    assert_eq!(vm.execute(), Ok(Signal::Halted));
    assert_eq!(vm.read(0), Ok(isize::MIN));
}

#[test]
fn immediate_sources() {
    let mut vm = Interpreter::from_bytecode(&vec![1101, 100, -1, 4, 0]);
    assert_eq!(vm.execute(), Ok(Signal::Halted));
    assert_eq!(vm.dump(), vec![1101, 100, -1, 4, 99]);
    let mut vm = Interpreter::from_bytecode(&vec![102, -3, 5, 5, 99, 33]);
    assert_eq!(vm.execute(), Ok(Signal::Halted));
    assert_eq!(vm.dump(), vec![102, -3, 5, 5, 99, -99]);
}

#[test]
fn input_yields_the_destination() {
    let mut vm = Interpreter::from_bytecode(&vec![3, 0, 4, 0, 99]);
    assert_eq!(vm.execute(), Ok(Signal::Input(0)));
    assert_eq!(vm.instruction_pointer(), 2);
    assert_eq!(vm.dump(), vec![3, 0, 4, 0, 99]);
    assert_eq!(vm.supply_input(0, "77\n"), Ok(Supplied::Value(77)));
    assert_eq!(vm.dump(), vec![77, 0, 4, 0, 99]);
    assert_eq!(vm.execute(), Ok(Signal::Output(77)));
    assert_eq!(vm.instruction_pointer(), 4);
    assert_eq!(vm.execute(), Ok(Signal::Halted));
    assert_eq!(vm.dump(), vec![77, 0, 4, 0, 99]);
}

#[test]
fn input_without_a_value_changes_nothing() {
    let mut vm = Interpreter::from_bytecode(&vec![3, 0, 4, 0, 99]);
    assert_eq!(vm.execute(), Ok(Signal::Input(0)));
    assert_eq!(vm.supply_input(0, ""), Ok(Supplied::Nothing));
    assert_eq!(vm.supply_input(0, "   \n"), Ok(Supplied::Nothing));
    assert_eq!(vm.supply_input(0, "seven\n"), Ok(Supplied::Unreadable));
    assert_eq!(vm.supply_input(0, "7x 8\n"), Ok(Supplied::Unreadable));
    assert_eq!(vm.dump(), vec![3, 0, 4, 0, 99]);
    assert_eq!(vm.execute(), Ok(Signal::Output(3)));
    assert_eq!(vm.execute(), Ok(Signal::Halted));
}

#[test]
fn input_takes_the_first_word() {
    let mut vm = Interpreter::from_bytecode(&vec![3, 1, 99]);
    assert_eq!(vm.execute(), Ok(Signal::Input(1)));
    assert_eq!(vm.supply_input(1, "  -12 34\n"), Ok(Supplied::Value(-12)));
    assert_eq!(vm.dump(), vec![3, -12, 99]);
    assert_eq!(vm.supply_input(1, "+5"), Ok(Supplied::Value(5)));
    assert_eq!(vm.dump(), vec![3, 5, 99]);
    assert_eq!(vm.supply_input(9, "5"), Err(Fault::OutOfBounds(9)));
    assert_eq!(vm.supply_input(9, "five"), Ok(Supplied::Unreadable));
    assert_eq!(vm.supply_input(9, "\n"), Ok(Supplied::Nothing));
    assert_eq!(vm.dump(), vec![3, 5, 99]);
}

#[test]
fn input_destination_is_never_immediate() {
    let mut vm = Interpreter::from_bytecode(&vec![103, 2, 99]);
    assert_eq!(vm.execute(), Ok(Signal::Input(2)));
    let mut vm = Interpreter::from_bytecode(&vec![103, 50, 99]);
    assert_eq!(vm.execute(), Err(Fault::InvalidReference(50)));
}

#[test]
fn output_in_both_modes() {
    let mut vm = Interpreter::from_bytecode(&vec![4, 3, 99, -42]);
    assert_eq!(vm.execute(), Ok(Signal::Output(-42)));
    assert_eq!(vm.execute(), Ok(Signal::Halted));
    let mut vm = Interpreter::from_bytecode(&vec![104, 3, 99, -42]);
    assert_eq!(vm.execute(), Ok(Signal::Output(3)));
    assert_eq!(vm.execute(), Ok(Signal::Halted));
    assert_eq!(vm.dump(), vec![104, 3, 99, -42]);
}

#[test]
fn from_string_skips_what_is_no_integer() {
    let vm = Interpreter::from_string("1,0,0,x,0\n99 ,, 7");
    assert_eq!(vm.dump(), vec![1, 0, 0, 0, 99, 7]);
    assert_eq!(vm.instruction_pointer(), 0);
}

#[test]
fn unattended_run_collects_outputs() {
    let mut vm = Interpreter::from_bytecode(&vec![104, 5, 4, 0, 1101, 2, 3, 0, 4, 0, 99]);
    let (outputs, fault) = vm.execute_unattended();
    assert_eq!(outputs, vec![5, 104, 5]);
    assert_eq!(fault, None);
    assert_eq!(vm.instruction_pointer(), 10);
    assert_eq!(vm.dump(), vec![5, 5, 4, 0, 1101, 2, 3, 0, 4, 0, 99]);
}

#[test]
fn unattended_run_leaves_input_cells() {
    let mut vm = Interpreter::from_bytecode(&vec![3, 0, 4, 0, 99]);
    let (outputs, fault) = vm.execute_unattended();
    assert_eq!(outputs, vec![3]);
    assert_eq!(fault, None);
    assert_eq!(vm.dump(), vec![3, 0, 4, 0, 99]);
}

#[test]
fn unattended_run_keeps_outputs_before_a_fault() {
    let mut vm = Interpreter::from_bytecode(&vec![104, 1, 104, 2, 7]);
    let (outputs, fault) = vm.execute_unattended();
    assert_eq!(outputs, vec![1, 2]);
    assert_eq!(fault, Some(Fault::UnknownOpcode(7)));
    assert_eq!(vm.instruction_pointer(), 4);
    let mut vm = Interpreter::from_bytecode(&vec![1, 0, 0, 0, 99]);
    let (outputs, fault) = vm.execute_unattended();
    assert_eq!(outputs, Vec::<isize>::new());
    assert_eq!(fault, None);
    assert_eq!(vm.dump(), vec![2, 0, 0, 0, 99]);
}

#[test]
fn read_parameter_follows_the_mode() {
    let vm = Interpreter::from_bytecode(&vec![10, 20, 30]);
    assert_eq!(vm.read_parameter(Param::PositionMode(2)), Ok(30));
    assert_eq!(vm.read_parameter(Param::ImmediateMode(2)), Ok(2));
    assert_eq!(vm.read_parameter(Param::ImmediateMode(-2)), Ok(-2));
    assert_eq!(
        vm.read_parameter(Param::PositionMode(3)),
        Err(Fault::OutOfBounds(3))
    );
}

#[test]
fn execution_is_deterministic() {
    let program: Vec<isize> = vec![1, 9, 10, 3, 2, 3, 11, 0, 99, 30, 40, 50];
    let mut first = Interpreter::from_bytecode(&program);
    let mut second = Interpreter::from_bytecode(&program);
    assert_eq!(first.execute(), second.execute());
    assert_eq!(first.dump(), second.dump());
    assert_eq!(first.instruction_pointer(), second.instruction_pointer());
}

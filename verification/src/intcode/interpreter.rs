//! The engine: fetch, decode, execute, until the program halts, faults, or
//! needs the outside world.

use vstd::prelude::*;
use crate::intcode::fault::Fault;
use crate::intcode::memory::{cell_at, MemoryManager, MutableMemoryManager, ReadOnlyMemoryManager};
use crate::intcode::parser::{decode, Op, Param, Parser};
use crate::intcode::text::{
    input_reading,
    parse_bytecode_string,
    program_values,
    read_input_line,
    Supplied,
};

verus! {

/// Why the engine handed control back.
#[derive(Debug, Clone, Copy, PartialEq, Eq, Structural)]
pub enum Signal {
    /// The program reached its halt instruction.
    Halted,
    /// The program asks for one value from outside, to be stored at this
    /// address. The instruction pointer is already past the instruction.
    Input(usize),
    /// The program hands this value to the outside. The instruction
    /// pointer is already past the instruction.
    Output(isize),
}

/// The state of a machine: its tape and its instruction pointer.
pub struct Machine {
    pub tape: Seq<isize>,
    pub ip: nat,
}

/// What one instruction does to a machine.
pub enum Step {
    /// The instruction was carried out inside the machine, which is now
    /// in this state and goes on.
    Continue(Machine),
    /// The machine stops in this state and reports this to its caller.
    Yield(Machine, Result<Signal, Fault>),
}

/// The value a source operand stands for on `tape`.
pub open spec fn operand(tape: Seq<isize>, param: Param) -> Result<isize, Fault> {
    match param {
        Param::PositionMode(address) => cell_at(tape, address as int),
        Param::ImmediateMode(value) => Ok(value),
    }
}

/// The machine after `value` was stored at `target` by an instruction
/// four cells wide, or the overflow fault if `value` fits in no cell.
pub open spec fn store(m: Machine, target: usize, value: int) -> Step {
    if isize::MIN <= value <= isize::MAX {
        Step::Continue(Machine { tape: m.tape.update(target as int, value as isize), ip: m.ip + 4 })
    } else {
        Step::Yield(m, Err(Fault::Overflow))
    }
}

/// The effect of the instruction under the instruction pointer.
///
/// A fault leaves the machine as it was. Sum and product are written to
/// the destination and the pointer moves on four cells. Input and output
/// move the pointer on two cells and hand the exchange to the caller.
/// Halt changes nothing.
pub open spec fn step(m: Machine) -> Step {
    match decode(m.tape, m.ip as int) {
        Err(fault) => Step::Yield(m, Err(fault)),
        Ok(Op::Halt) => Step::Yield(m, Ok(Signal::Halted)),
        Ok(Op::Sum(a, b, target)) => store(
            m,
            target,
            operand(m.tape, a)->Ok_0 + operand(m.tape, b)->Ok_0,
        ),
        Ok(Op::Multiply(a, b, target)) => store(
            m,
            target,
            operand(m.tape, a)->Ok_0 * operand(m.tape, b)->Ok_0,
        ),
        Ok(Op::Input(target)) => Step::Yield(
            Machine { tape: m.tape, ip: m.ip + 2 },
            Ok(Signal::Input(target)),
        ),
        Ok(Op::Output(source)) => Step::Yield(
            Machine { tape: m.tape, ip: m.ip + 2 },
            Ok(Signal::Output(operand(m.tape, source)->Ok_0)),
        ),
    }
}

/// The machine's run from state `m`: instruction after instruction, in
/// program order, until one of them yields. The result is the state the
/// machine stops in and what it reports.
pub open spec fn run(m: Machine) -> (Machine, Result<Signal, Fault>)
    decreases m.tape.len() - m.ip,
{
    match step(m) {
        Step::Yield(stopped, report) => (stopped, report),
        Step::Continue(next) => run(next),
    }
}

/// An instruction that goes on leaves the tape's length alone and moves
/// the pointer forward, never past the end of the tape.
pub proof fn lemma_step_advances(m: Machine)
    requires
        step(m) is Continue,
    ensures
        step(m)->Continue_0.tape.len() == m.tape.len(),
        m.ip < step(m)->Continue_0.ip <= m.tape.len(),
{
}

/// A run is its first instruction followed by the run from the state that
/// instruction leaves.
pub proof fn lemma_run_unfold(m: Machine)
    ensures
        step(m) is Continue ==> run(m) == run(step(m)->Continue_0),
        step(m) matches Step::Yield(stopped, report) ==> run(m) == (stopped, report),
{
    if step(m) is Continue {
        lemma_step_advances(m);
    }
}

/// A sum or a product that fits in a cell is stored at the destination,
/// every other cell stays as it is, and the run goes on with the
/// instruction four cells further on: arithmetic is applied instruction
/// by instruction, in program order.
pub proof fn lemma_arithmetic_step(m: Machine, a: Param, b: Param, target: usize, result: int)
    requires
        isize::MIN <= result <= isize::MAX,
        (decode(m.tape, m.ip as int) == Ok::<Op, Fault>(Op::Sum(a, b, target)) && result
            == operand(m.tape, a)->Ok_0 + operand(m.tape, b)->Ok_0) || (decode(m.tape, m.ip as int)
            == Ok::<Op, Fault>(Op::Multiply(a, b, target)) && result == operand(m.tape, a)->Ok_0
            * operand(m.tape, b)->Ok_0),
    ensures
        operand(m.tape, a) is Ok,
        operand(m.tape, b) is Ok,
        run(m) == run(Machine { tape: m.tape.update(target as int, result as isize), ip: m.ip + 4 }),
{
    lemma_run_unfold(m);
}

/// A halt instruction leaves tape and pointer exactly as they were.
pub proof fn lemma_halt_changes_nothing(m: Machine)
    requires
        decode(m.tape, m.ip as int) == Ok::<Op, Fault>(Op::Halt),
    ensures
        run(m) == (m, Ok::<Signal, Fault>(Signal::Halted)),
{
}

/// However a run ends, the tape has the length it started with and the
/// pointer has not moved backward.
pub proof fn lemma_run_keeps_length(m: Machine)
    ensures
        run(m).0.tape.len() == m.tape.len(),
        run(m).0.ip >= m.ip,
    decreases m.tape.len() - m.ip,
{
    if step(m) is Continue {
        lemma_step_advances(m);
        lemma_run_keeps_length(step(m)->Continue_0);
    }
}

/// A run reports only what the instruction it stopped at calls for: an
/// exchange with the outside only just behind an input or output
/// instruction, a halt only on a halt instruction. So a program that
/// reaches nothing but sums, products and a halt runs to that halt, or
/// to a fault, without asking for or handing out a value.
pub proof fn lemma_run_reports(m: Machine)
    ensures
        run(m).1 matches Ok(Signal::Input(_)) ==> decode(run(m).0.tape, run(m).0.ip - 2) is Ok
            && decode(run(m).0.tape, run(m).0.ip - 2)->Ok_0 is Input,
        run(m).1 matches Ok(Signal::Output(_)) ==> decode(run(m).0.tape, run(m).0.ip - 2) is Ok
            && decode(run(m).0.tape, run(m).0.ip - 2)->Ok_0 is Output,
        run(m).1 == Ok::<Signal, Fault>(Signal::Halted) ==> decode(run(m).0.tape, run(m).0.ip as int)
            == Ok::<Op, Fault>(Op::Halt),
    decreases m.tape.len() - m.ip,
{
    if step(m) is Continue {
        lemma_step_advances(m);
        lemma_run_reports(step(m)->Continue_0);
    }
}

/// A run that reports an exchange with the outside has moved the
/// pointer forward.
pub proof fn lemma_exchange_advances(m: Machine)
    requires
        run(m).1 matches Ok(signal) && signal != Signal::Halted,
    ensures
        run(m).0.tape.len() == m.tape.len(),
        m.ip < run(m).0.ip <= m.tape.len(),
    decreases m.tape.len() - m.ip,
{
    if step(m) is Continue {
        lemma_step_advances(m);
        lemma_exchange_advances(step(m)->Continue_0);
    }
}

/// The machine's run from state `m` with nobody outside: every input
/// instruction is answered with no value, so that its cell stays as it
/// is, and every output is collected. The result is the state the
/// machine stops in, the values it put out on the way, and the fault that
/// stopped it if it did not halt.
pub open spec fn run_unattended(m: Machine) -> (Machine, Seq<isize>, Option<Fault>)
    decreases m.tape.len() - m.ip,
{
    let (stopped, report) = run(m);
    match report {
        Ok(Signal::Input(_)) => {
            proof {
                lemma_exchange_advances(m);
            }
            run_unattended(stopped)
        },
        Ok(Signal::Output(value)) => {
            proof {
                lemma_exchange_advances(m);
            }
            let (last, values, fault) = run_unattended(stopped);
            (last, seq![value] + values, fault)
        },
        Ok(Signal::Halted) => (stopped, Seq::<isize>::empty(), None),
        Err(fault) => (stopped, Seq::<isize>::empty(), Some(fault)),
    }
}

/// However an unattended run ends, the tape has the length it started
/// with and the pointer has not moved backward.
pub proof fn lemma_unattended_keeps_length(m: Machine)
    ensures
        run_unattended(m).0.tape.len() == m.tape.len(),
        run_unattended(m).0.ip >= m.ip,
    decreases m.tape.len() - m.ip,
{
    lemma_run_keeps_length(m);
    match run(m).1 {
        Ok(Signal::Input(_)) => {
            lemma_exchange_advances(m);
            lemma_unattended_keeps_length(run(m).0);
        },
        Ok(Signal::Output(_)) => {
            lemma_exchange_advances(m);
            lemma_unattended_keeps_length(run(m).0);
        },
        _ => {},
    }
}

/// A machine: a tape it owns and a cursor into it.
pub struct Interpreter {
    memory: MemoryManager,
    instruction_pointer: usize,
}

impl View for Interpreter {
    type V = Machine;

    closed spec fn view(&self) -> Machine {
        Machine { tape: self.memory@, ip: self.instruction_pointer as nat }
    }
}

impl Interpreter {
    /// A machine at instruction 0 of the program that the text `src`
    /// writes.
    pub fn from_string(src: &str) -> (vm: Interpreter)
        ensures
            vm@ == (Machine { tape: program_values(src@), ip: 0 }),
    {
        let init_memory: Vec<isize> = parse_bytecode_string(src);
        let memory: MemoryManager = MemoryManager::new(&init_memory);
        Interpreter { instruction_pointer: 0, memory }
    }

    /// A machine at instruction 0 of the program `src`.
    pub fn from_bytecode(src: &Vec<isize>) -> (vm: Interpreter)
        ensures
            vm@ == (Machine { tape: src@, ip: 0 }),
    {
        let memory: MemoryManager = MemoryManager::new(src);
        Interpreter { instruction_pointer: 0, memory }
    }

    /// Runs the program from the current instruction until it halts,
    /// faults, or reaches an input or output instruction.
    ///
    /// On `Signal::Input(target)` the caller hands the line it read to
    /// `supply_input`, or stores a value of its own with `write`, or
    /// stores nothing if it obtained none, and calls `execute` again. On
    /// `Signal::Output(value)` it emits the value and calls `execute`
    /// again. After `Signal::Halted` or a fault the machine stays where
    /// it stopped.
    pub fn execute(&mut self) -> (report: Result<Signal, Fault>)
        ensures
            (final(self)@, report) == run(old(self)@),
    {
        loop
            invariant
                run(self@) == run(old(self)@),
            decreases self@.tape.len() - self@.ip,
        {
            proof {
                self.memory.lemma_len_fits();
                lemma_run_unfold(self@);
                if step(self@) is Continue {
                    lemma_step_advances(self@);
                }
            }
            let op: Op = Parser::new(&self.memory).parse_op(self.instruction_pointer)?;
            match op {
                Op::Halt => {
                    return Ok(Signal::Halted);
                },
                Op::Sum(a, b, addr) => {
                    let x: isize = self.read_parameter(a)?;
                    let y: isize = self.read_parameter(b)?;
                    match x.checked_add(y) {
                        Some(sum) => {
                            self.memory.write(addr, sum)?;
                        },
                        None => {
                            return Err(Fault::Overflow);
                        },
                    }
                    self.instruction_pointer += 4;
                },
                Op::Multiply(a, b, addr) => {
                    let x: isize = self.read_parameter(a)?;
                    let y: isize = self.read_parameter(b)?;
                    match x.checked_mul(y) {
                        Some(product) => {
                            self.memory.write(addr, product)?;
                        },
                        None => {
                            return Err(Fault::Overflow);
                        },
                    }
                    self.instruction_pointer += 4;
                },
                Op::Input(addr) => {
                    self.instruction_pointer += 2;
                    return Ok(Signal::Input(addr));
                },
                Op::Output(source) => {
                    let value: isize = self.read_parameter(source)?;
                    self.instruction_pointer += 2;
                    return Ok(Signal::Output(value));
                },
            }
        }
    }

    /// Runs the program from the current instruction to its halt or its
    /// fault with nobody outside: an input instruction gets no value and
    /// leaves its cell as it is, an output is collected. Returns the
    /// values put out, in order, and the fault if the program did not
    /// halt.
    pub fn execute_unattended(&mut self) -> (end: (Vec<isize>, Option<Fault>))
        ensures
            (final(self)@, end.0@, end.1) == run_unattended(old(self)@),
    {
        let mut outputs: Vec<isize> = Vec::new();
        loop
            invariant
                run_unattended(old(self)@) == ({
                    let (last, values, fault) = run_unattended(self@);
                    (last, outputs@ + values, fault)
                }),
            decreases self@.tape.len() - self@.ip,
        {
            let ghost before = self@;
            match self.execute() {
                Ok(Signal::Halted) => {
                    return (outputs, None);
                },
                Ok(Signal::Input(_)) => {
                    proof {
                        lemma_exchange_advances(before);
                    }
                },
                Ok(Signal::Output(value)) => {
                    outputs.push(value);
                    proof {
                        lemma_exchange_advances(before);
                    }
                },
                Err(fault) => {
                    return (outputs, Some(fault));
                },
            }
        }
    }

    /// The value of the cell at `at`; `OutOfBounds(at)` past the end.
    pub fn read(&self, at: usize) -> (cell: Result<isize, Fault>)
        ensures
            cell == cell_at(self@.tape, at as int),
    {
        self.memory.read(at)
    }

    /// Overwrites the cell at `at` with `val`, as when seeding a program
    /// before it runs or answering an input instruction. Past the end
    /// nothing is written and `OutOfBounds(at)` is returned. The
    /// instruction pointer stays.
    pub fn write(&mut self, at: usize, val: isize) -> (done: Result<(), Fault>)
        ensures
            final(self)@.ip == old(self)@.ip,
            at < old(self)@.tape.len() ==> done == Ok::<(), Fault>(()) && final(self)@.tape == old(
                self,
            )@.tape.update(at as int, val),
            at >= old(self)@.tape.len() ==> done == Err::<(), Fault>(Fault::OutOfBounds(at))
                && final(self)@.tape == old(self)@.tape,
    {
        self.memory.write(at, val)
    }

    /// Answers an input instruction with a line of text from outside: the
    /// integer that the line supplies is stored at `at`. A line that
    /// supplies none changes nothing, and that is no fault; what the line
    /// supplied is handed back, so that the caller can tell the three
    /// outcomes apart.
    pub fn supply_input(&mut self, at: usize, line: &str) -> (done: Result<Supplied, Fault>)
        ensures
            final(self)@.ip == old(self)@.ip,
            match input_reading(line@) {
                Supplied::Value(value) => if at < old(self)@.tape.len() {
                    done == Ok::<Supplied, Fault>(Supplied::Value(value)) && final(self)@.tape
                        == old(self)@.tape.update(at as int, value)
                } else {
                    done == Err::<Supplied, Fault>(Fault::OutOfBounds(at)) && final(self)@.tape
                        == old(self)@.tape
                },
                nothing => done == Ok::<Supplied, Fault>(nothing) && final(self)@.tape == old(
                    self,
                )@.tape,
            },
    {
        let reading: Supplied = read_input_line(line);
        match reading {
            Supplied::Value(val) => {
                self.memory.write(at, val)?;
            },
            _ => {},
        }
        Ok(reading)
    }

    /// A snapshot: a copy of the whole tape as it is now.
    pub fn dump(&self) -> (cells: Vec<isize>)
        ensures
            cells@ == self@.tape,
    {
        self.memory.dump()
    }

    /// The address of the instruction that runs next.
    pub fn instruction_pointer(&self) -> (ip: usize)
        ensures
            ip == self@.ip,
    {
        self.instruction_pointer
    }

    /// The value that `param` stands for: the cell it points at, or the
    /// value it carries.
    pub fn read_parameter(&self, param: Param) -> (value: Result<isize, Fault>)
        ensures
            value == operand(self@.tape, param),
    {
        match param {
            Param::PositionMode(at) => self.memory.read(at),
            Param::ImmediateMode(val) => Ok(val),
        }
    }
}

} // verus!

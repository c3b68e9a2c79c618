//! The decoder: from the cells under the instruction pointer to one fully
//! resolved instruction.

use vstd::prelude::*;
use crate::intcode::fault::Fault;
use crate::intcode::memory::{address_at, cell_at, ReadOnlyMemoryManager};

verus! {

/// A resolved source operand.
#[derive(Debug, Clone, Copy, PartialEq, Eq, Structural)]
pub enum Param {
    /// The operand is the cell at this address. The decoder only hands
    /// out addresses that lie on the tape.
    PositionMode(usize),
    /// The operand is this value.
    ImmediateMode(isize),
}

/// A decoded instruction. Destinations are always addresses on the tape.
#[derive(Debug, Clone, Copy, PartialEq, Eq, Structural)]
pub enum Op {
    /// Store the sum of the two sources at the destination.
    Sum(Param, Param, usize),
    /// Store the product of the two sources at the destination.
    Multiply(Param, Param, usize),
    /// Store one value from outside at the destination.
    Input(usize),
    /// Hand the source to the outside.
    Output(Param),
    /// Stop.
    Halt,
}

/// The opcode of an instruction cell: the remainder of its division by
/// 100, carrying the cell's sign. A negative cell never names an operation.
pub open spec fn opcode_of(cell: int) -> int {
    if cell >= 0 {
        cell % 100
    } else {
        -((-cell) % 100)
    }
}

/// The mode digit of the first operand of a non-negative instruction
/// cell: the hundreds digit.
pub open spec fn first_mode(cell: int) -> int {
    (cell / 100) % 10
}

/// The mode digit of the second operand of a non-negative instruction
/// cell: the thousands digit.
pub open spec fn second_mode(cell: int) -> int {
    (cell / 1000) % 10
}

/// The source operand stored at `at` under mode digit `digit`: with 1 the
/// cell's own value, with 0 the cell's value as an address; any other
/// digit is refused before the cell is looked at.
pub open spec fn source_at(tape: Seq<isize>, at: int, digit: int) -> Result<Param, Fault> {
    if digit == 1 {
        match cell_at(tape, at) {
            Ok(value) => Ok(Param::ImmediateMode(value)),
            Err(fault) => Err(fault),
        }
    } else if digit == 0 {
        match address_at(tape, at) {
            Ok(address) => Ok(Param::PositionMode(address)),
            Err(fault) => Err(fault),
        }
    } else {
        Err(Fault::InvalidMode(digit as usize))
    }
}

/// The two sources and the destination of an arithmetic instruction at
/// `ip`, resolved left to right; the first operand that fails decides the
/// fault.
pub open spec fn arithmetic_operands(tape: Seq<isize>, ip: int) -> Result<(Param, Param, usize), Fault> {
    match source_at(tape, ip + 1, first_mode(tape[ip] as int)) {
        Err(fault) => Err(fault),
        Ok(first) => match source_at(tape, ip + 2, second_mode(tape[ip] as int)) {
            Err(fault) => Err(fault),
            Ok(second) => match address_at(tape, ip + 3) {
                Err(fault) => Err(fault),
                Ok(target) => Ok((first, second, target)),
            },
        },
    }
}

/// The instruction that starts at `ip`.
///
/// Opcodes 1 and 2 take two sources and a destination, 3 a destination,
/// 4 a source, 99 nothing. Mode digits above those that the opcode uses
/// are not looked at. Every other opcode is a fault.
pub open spec fn decode(tape: Seq<isize>, ip: int) -> Result<Op, Fault> {
    match cell_at(tape, ip) {
        Err(fault) => Err(fault),
        Ok(cell) => {
            let opcode = opcode_of(cell as int);
            if opcode == 99 {
                Ok(Op::Halt)
            } else if opcode == 1 {
                match arithmetic_operands(tape, ip) {
                    Err(fault) => Err(fault),
                    Ok(operands) => Ok(Op::Sum(operands.0, operands.1, operands.2)),
                }
            } else if opcode == 2 {
                match arithmetic_operands(tape, ip) {
                    Err(fault) => Err(fault),
                    Ok(operands) => Ok(Op::Multiply(operands.0, operands.1, operands.2)),
                }
            } else if opcode == 3 {
                match address_at(tape, ip + 1) {
                    Err(fault) => Err(fault),
                    Ok(target) => Ok(Op::Input(target)),
                }
            } else if opcode == 4 {
                match source_at(tape, ip + 1, first_mode(cell as int)) {
                    Err(fault) => Err(fault),
                    Ok(source) => Ok(Op::Output(source)),
                }
            } else {
                Err(Fault::UnknownOpcode(opcode as isize))
            }
        },
    }
}

/// Number of cells an instruction occupies.
pub open spec fn width(op: Op) -> nat {
    match op {
        Op::Sum(_, _, _) => 4,
        Op::Multiply(_, _, _) => 4,
        Op::Input(_) => 2,
        Op::Output(_) => 2,
        Op::Halt => 1,
    }
}

/// Whether the address that `param` names, if it names one, lies on a tape
/// of `len` cells.
pub open spec fn param_on_tape(param: Param, len: nat) -> bool {
    match param {
        Param::PositionMode(address) => address < len,
        Param::ImmediateMode(_) => true,
    }
}

/// Whether every address that `op` names lies on a tape of `len` cells.
pub open spec fn op_on_tape(op: Op, len: nat) -> bool {
    match op {
        Op::Sum(a, b, target) => param_on_tape(a, len) && param_on_tape(b, len) && target < len,
        Op::Multiply(a, b, target) => param_on_tape(a, len) && param_on_tape(b, len) && target
            < len,
        Op::Input(target) => target < len,
        Op::Output(source) => param_on_tape(source, len),
        Op::Halt => true,
    }
}

/// A decoded instruction lies wholly on the tape: its cells, and every
/// address it names.
pub proof fn lemma_decode_on_tape(tape: Seq<isize>, ip: int)
    requires
        decode(tape, ip) is Ok,
    ensures
        0 <= ip,
        ip + width(decode(tape, ip)->Ok_0) <= tape.len(),
        op_on_tape(decode(tape, ip)->Ok_0, tape.len()),
{
}

/// An instruction cell with opcode 99 decodes to `Halt`, whatever its
/// higher digits and whatever follows it on the tape.
pub proof fn lemma_decode_halt(tape: Seq<isize>, ip: int)
    requires
        0 <= ip < tape.len(),
        opcode_of(tape[ip] as int) == 99,
    ensures
        decode(tape, ip) == Ok::<Op, Fault>(Op::Halt),
{
}

/// Mode digits above those that an opcode uses change nothing: two
/// instruction cells with the same opcode and the same digits for the
/// operands that the opcode reads in a mode decode alike. Sum and product
/// read two operands in a mode, output one, input and halt none.
pub proof fn lemma_unused_modes_ignored(tape: Seq<isize>, ip: int, cell: isize)
    requires
        0 <= ip < tape.len(),
        tape[ip] >= 0,
        cell >= 0,
        opcode_of(cell as int) == opcode_of(tape[ip] as int),
        opcode_of(cell as int) == 1 || opcode_of(cell as int) == 2 ==> first_mode(cell as int)
            == first_mode(tape[ip] as int) && second_mode(cell as int) == second_mode(
            tape[ip] as int,
        ),
        opcode_of(cell as int) == 4 ==> first_mode(cell as int) == first_mode(tape[ip] as int),
    ensures
        decode(tape.update(ip, cell), ip) == decode(tape, ip),
{
}

/// Resolving an address never clamps or wraps: it succeeds exactly when
/// the cell exists and its value is a position on the tape, and then
/// yields that value unchanged.
pub proof fn lemma_address_at_strict(tape: Seq<isize>, at: int)
    ensures
        address_at(tape, at) is Ok <==> 0 <= at < tape.len() && 0 <= tape[at] < tape.len(),
        address_at(tape, at) is Ok ==> address_at(tape, at)->Ok_0 == tape[at],
        0 <= at < tape.len() && !(0 <= tape[at] < tape.len()) ==> address_at(tape, at) == Err::<
            usize,
            Fault,
        >(Fault::InvalidReference(tape[at])),
{
}

/// A decoder over a tape it may only read.
pub struct Parser<'a, M: ReadOnlyMemoryManager> {
    memory: &'a M,
}

impl<'a, M: ReadOnlyMemoryManager> Parser<'a, M> {
    /// The tape this decoder reads.
    pub closed spec fn tape(&self) -> Seq<isize> {
        self.memory.tape()
    }

    /// A decoder over `memory`.
    pub fn new(memory: &'a M) -> (parser: Parser<'a, M>)
        ensures
            parser.tape() == memory.tape(),
    {
        Parser { memory }
    }

    /// Decodes the instruction that starts at `at`.
    pub fn parse_op(&self, at: usize) -> (op: Result<Op, Fault>)
        ensures
            op == decode(self.tape(), at as int),
    {
        if at >= self.memory.len() {
            return Err(Fault::OutOfBounds(at));
        }
        let cell: isize = self.memory.read(at)?;
        let op_code: isize = cell % 100;
        let param_modes: usize = if cell >= 0 {
            (cell / 100) as usize
        } else {
            0
        };
        match op_code {
            99 => Ok(Op::Halt),
            1 => Ok(
                Op::Sum(
                    self.read_parameter(at + 1, param_modes % 10)?,
                    self.read_parameter(at + 2, param_modes / 10 % 10)?,
                    self.memory.read_address(at + 3)?,
                ),
            ),
            2 => Ok(
                Op::Multiply(
                    self.read_parameter(at + 1, param_modes % 10)?,
                    self.read_parameter(at + 2, param_modes / 10 % 10)?,
                    self.memory.read_address(at + 3)?,
                ),
            ),
            3 => Ok(Op::Input(self.memory.read_address(at + 1)?)),
            4 => Ok(Op::Output(self.read_parameter(at + 1, param_modes % 10)?)),
            x => Err(Fault::UnknownOpcode(x)),
        }
    }

    /// Resolves the source operand stored at `at` under mode digit `flag`.
    pub fn read_parameter(&self, at: usize, flag: usize) -> (param: Result<Param, Fault>)
        ensures
            param == source_at(self.tape(), at as int, flag as int),
    {
        if flag == 1 {
            match self.memory.read(at) {
                Ok(value) => Ok(Param::ImmediateMode(value)),
                Err(fault) => Err(fault),
            }
        } else if flag == 0 {
            match self.memory.read_address(at) {
                Ok(address) => Ok(Param::PositionMode(address)),
                Err(fault) => Err(fault),
            }
        } else {
            Err(Fault::InvalidMode(flag))
        }
    }
}

} // verus!

//! The conditions under which the machine stops for good.

use vstd::prelude::*;

verus! {

/// A fatal condition of the machine. Once one is reported the program
/// that raised it is corrupt; the machine is not meant to go on.
#[derive(Debug, Clone, Copy, PartialEq, Eq, Structural)]
pub enum Fault {
    /// A cell was read or written at an address at or past the end of the
    /// tape. Carries the address.
    OutOfBounds(usize),
    /// A cell that was to be used as an address holds a negative value or
    /// one at or past the end of the tape. Carries the cell's value.
    InvalidReference(isize),
    /// The cell under the instruction pointer names no operation. Carries
    /// the opcode that was read from it.
    UnknownOpcode(isize),
    /// A source operand's mode digit is neither 0 nor 1. Carries the digit.
    InvalidMode(usize),
    /// A sum or a product does not fit in a cell.
    Overflow,
}

} // verus!

//! The tape: a fixed-length sequence of signed cells with checked access.

use vstd::prelude::*;
use crate::intcode::fault::Fault;

verus! {

/// The cell of `tape` at `at`, or the fault that reading it raises.
pub open spec fn cell_at(tape: Seq<isize>, at: int) -> Result<isize, Fault> {
    if 0 <= at < tape.len() {
        Ok(tape[at])
    } else {
        Err(Fault::OutOfBounds(at as usize))
    }
}

/// Whether `value` may be used as an address into `tape`.
pub open spec fn is_address(tape: Seq<isize>, value: int) -> bool {
    0 <= value < tape.len()
}

/// The address held in the cell of `tape` at `at`: the cell's value, once
/// it is known to lie on the tape.
pub open spec fn address_at(tape: Seq<isize>, at: int) -> Result<usize, Fault> {
    match cell_at(tape, at) {
        Err(fault) => Err(fault),
        Ok(value) => if is_address(tape, value as int) {
            Ok(value as usize)
        } else {
            Err(Fault::InvalidReference(value))
        },
    }
}

/// Read access to a tape.
pub trait ReadOnlyMemoryManager {
    /// The cells of the tape, in address order.
    spec fn tape(&self) -> Seq<isize>;

    /// Number of cells.
    fn len(&self) -> (n: usize)
        ensures
            n == self.tape().len(),
    ;

    /// The value of the cell at `at`; `OutOfBounds(at)` past the end.
    fn read(&self, at: usize) -> (cell: Result<isize, Fault>)
        ensures
            cell == cell_at(self.tape(), at as int),
    ;

    /// The value of the cell at `at`, as an address. Fails like `read`
    /// past the end, and with `InvalidReference` when the value is
    /// negative or not below the tape's length.
    fn read_address(&self, at: usize) -> (address: Result<usize, Fault>)
        ensures
            address == address_at(self.tape(), at as int),
    ;

    /// A snapshot: a copy of the whole tape as it is now.
    fn dump(&self) -> (cells: Vec<isize>)
        ensures
            cells@ == self.tape(),
    ;
}

/// Two snapshots of a tape with no write between them hold the same
/// cells: each is the tape as it stands.
pub proof fn lemma_dump_repeats<M: ReadOnlyMemoryManager>(
    memory: &M,
    first: Seq<isize>,
    second: Seq<isize>,
)
    requires
        first == memory.tape(),
        second == memory.tape(),
    ensures
        first == second,
{
}

/// A write changes the cell it names and no other, so that a read of any
/// cell afterwards gives the value written or the value from before.
pub proof fn lemma_write_then_read(tape: Seq<isize>, at: int, val: isize, other: int)
    requires
        0 <= at < tape.len(),
    ensures
        cell_at(tape.update(at, val), at) == Ok::<isize, Fault>(val),
        other != at ==> cell_at(tape.update(at, val), other) == cell_at(tape, other),
        tape.update(at, val).len() == tape.len(),
{
}

/// Write access to a tape.
pub trait MutableMemoryManager: ReadOnlyMemoryManager {
    /// Overwrites the cell at `at` with `val`. Past the end nothing is
    /// written and `OutOfBounds(at)` is returned. The length never changes.
    fn write(&mut self, at: usize, val: isize) -> (done: Result<(), Fault>)
        ensures
            at < old(self).tape().len() ==> done == Ok::<(), Fault>(())
                && final(self).tape() == old(self).tape().update(at as int, val),
            at >= old(self).tape().len() ==> done == Err::<(), Fault>(Fault::OutOfBounds(at))
                && final(self).tape() == old(self).tape(),
    ;
}

/// A tape held in memory.
pub struct MemoryManager {
    memory: Vec<isize>,
}

impl View for MemoryManager {
    type V = Seq<isize>;

    closed spec fn view(&self) -> Seq<isize> {
        self.memory@
    }
}

impl MemoryManager {
    /// A tape holding a copy of `init`.
    pub fn new(init: &Vec<isize>) -> (manager: MemoryManager)
        ensures
            manager@ == init@,
    {
        MemoryManager { memory: init.clone() }
    }

    /// A tape held in memory has a length that fits in a `usize`.
    pub proof fn lemma_len_fits(&self)
        ensures
            self@.len() <= usize::MAX,
    {
        assert(self.memory@.len() == self.memory.len());
    }
}

impl ReadOnlyMemoryManager for MemoryManager {
    open spec fn tape(&self) -> Seq<isize> {
        self@
    }

    fn len(&self) -> (n: usize) {
        self.memory.len()
    }

    fn read(&self, at: usize) -> (cell: Result<isize, Fault>) {
        if at < self.memory.len() {
            Ok(self.memory[at])
        } else {
            Err(Fault::OutOfBounds(at))
        }
    }

    fn read_address(&self, at: usize) -> (address: Result<usize, Fault>) {
        match self.read(at) {
            Err(fault) => Err(fault),
            Ok(pos) => {
                if pos < 0 || (pos as usize) >= self.memory.len() {
                    Err(Fault::InvalidReference(pos))
                } else {
                    Ok(pos as usize)
                }
            },
        }
    }

    fn dump(&self) -> (cells: Vec<isize>) {
        self.memory.clone()
    }
}

impl MutableMemoryManager for MemoryManager {
    fn write(&mut self, at: usize, val: isize) -> (done: Result<(), Fault>) {
        if at < self.memory.len() {
            self.memory.set(at, val);
            Ok(())
        } else {
            Err(Fault::OutOfBounds(at))
        }
    }
}

} // verus!

//! The search for the two seed values that make a program leave a wanted
//! number in its first cell.

use vstd::prelude::*;
use crate::intcode::fault::Fault;
use crate::intcode::interpreter::{
    lemma_unattended_keeps_length,
    run_unattended,
    Interpreter,
    Machine,
};

verus! {

/// The number the program is to leave in cell 0.
pub const TARGET: isize = 19690720;

/// Each of the two seeds is tried from 0 up to, not including, this.
pub const SEEDS: isize = 100;

/// The program `src` with `noun` in cell 1 and `verb` in cell 2.
pub open spec fn seeded(src: Seq<isize>, noun: isize, verb: isize) -> Seq<isize> {
    src.update(1, noun).update(2, verb)
}

/// How the seeded program ends when run from its start with nobody
/// outside: the final tape, or the fault that stopped it.
pub open spec fn trial(src: Seq<isize>, noun: isize, verb: isize) -> Result<Seq<isize>, Fault> {
    let (last, values, fault) = run_unattended(Machine { tape: seeded(src, noun, verb), ip: 0 });
    match fault {
        Some(fault) => Err(fault),
        None => Ok(last.tape),
    }
}

/// What the search finds from the pair `(noun, verb)` on, trying verbs
/// before nouns: the first pair whose trial leaves the target in cell 0.
/// A trial that faults ends the search with its fault. If no pair is
/// left, nothing is found.
pub open spec fn search_from(src: Seq<isize>, noun: int, verb: int) -> Result<
    Option<(isize, isize)>,
    Fault,
>
    decreases SEEDS - noun, SEEDS - verb,
{
    if noun >= SEEDS || noun < 0 || verb < 0 {
        Ok(None)
    } else if verb >= SEEDS {
        search_from(src, noun + 1, 0)
    } else {
        match trial(src, noun as isize, verb as isize) {
            Err(fault) => Err(fault),
            Ok(tape) => if tape[0] == TARGET {
                Ok(Some((noun as isize, verb as isize)))
            } else {
                search_from(src, noun, verb + 1)
            },
        }
    }
}

/// Searches the seeds from `(0, 0)` up for the first pair that makes
/// `src` leave the target in cell 0.
pub fn run(src: &Vec<isize>) -> (found: Result<Option<(isize, isize)>, Fault>)
    requires
        src.len() >= 3,
    ensures
        found == search_from(src@, 0, 0),
{
    let mut i: isize = 0;
    while i < SEEDS
        invariant
            0 <= i <= SEEDS,
            src.len() >= 3,
            search_from(src@, 0, 0) == search_from(src@, i as int, 0),
        decreases SEEDS - i,
    {
        let mut j: isize = 0;
        while j < SEEDS
            invariant
                0 <= i < SEEDS,
                0 <= j <= SEEDS,
                src.len() >= 3,
                search_from(src@, 0, 0) == search_from(src@, i as int, j as int),
            decreases SEEDS - j,
        {
            let mut test_memory: Vec<isize> = src.clone();
            test_memory.set(1, i);
            test_memory.set(2, j);
            let mut program: Interpreter = Interpreter::from_bytecode(&test_memory);
            proof {
                lemma_unattended_keeps_length(program@);
            }
            let (_, fault) = program.execute_unattended();
            match fault {
                Some(fault) => {
                    return Err(fault);
                },
                None => {},
            }
            match program.read(0) {
                Ok(value) => {
                    if value == TARGET {
                        return Ok(Some((i, j)));
                    }
                },
                Err(fault) => {
                    return Err(fault);
                },
            }
            j += 1;
        }
        i += 1;
    }
    Ok(None)
}

} // verus!

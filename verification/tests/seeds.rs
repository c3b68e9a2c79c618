use aocrs::day2::{run, SEEDS, TARGET};
use aocrs::intcode::Fault;

#[test]
fn the_constants() {
    assert_eq!(TARGET, 19690720);
    assert_eq!(SEEDS, 100);
}

#[test]
fn finds_the_one_pair() {
    let program: Vec<isize> = vec![
        1101, 0, 0, 20, 1002, 1, 160000, 21, 1, 21, 2, 22, 101, 17770718, 22, 0, 99, 0, 0, 0, 0,
        0, 0,
    ];
    assert_eq!(run(&program), Ok(Some((12, 2))));
}

#[test]
fn finds_the_first_of_many() {
    let program: Vec<isize> = vec![1101, 0, 0, 9, 1101, 19690720, 0, 0, 99, 0];
    assert_eq!(run(&program), Ok(Some((0, 0))));
}

#[test]
fn verbs_are_tried_before_nouns() {
    // cell 0 becomes noun * 160000 + verb + 19690720 - 7: only verb 7 with noun 0 hits.
    let program: Vec<isize> = vec![
        1101, 0, 0, 20, 1002, 1, 160000, 21, 1, 21, 2, 22, 101, 19690713, 22, 0, 99, 0, 0, 0, 0,
        0, 0,
    ];
    assert_eq!(run(&program), Ok(Some((0, 7))));
}

#[test]
fn finds_nothing_when_no_pair_fits() {
    assert_eq!(run(&vec![99, 0, 0]), Ok(None));
    assert_eq!(run(&vec![1101, 0, 0, 0, 99]), Ok(None));
}

#[test]
fn the_last_pair_is_tried() {
    // cell 0 becomes noun * 160000 + verb + K with K chosen for (99, 99).
    let k: isize = 19690720 - 99 * 160000 - 99;
    let program: Vec<isize> = vec![
        1101, 0, 0, 20, 1002, 1, 160000, 21, 1, 21, 2, 22, 101, k, 22, 0, 99, 0, 0, 0, 0, 0, 0,
    ];
    assert_eq!(run(&program), Ok(Some((99, 99))));
}

#[test]
fn a_faulting_trial_ends_the_search() {
    assert_eq!(run(&vec![1, 0, 0, 0, 99]), Err(Fault::InvalidReference(5)));
    assert_eq!(run(&vec![7, 0, 0]), Err(Fault::UnknownOpcode(7)));
    assert_eq!(run(&vec![1101, 0, 0]), Err(Fault::OutOfBounds(3)));
}

#[test]
fn a_hit_before_a_fault_wins() {
    // (0, 0) hits; (0, 5) would fault on a position-mode read.
    let program: Vec<isize> = vec![1101, 0, 0, 9, 1101, 19690720, 0, 0, 99, 0];
    assert_eq!(run(&program), Ok(Some((0, 0))));
}

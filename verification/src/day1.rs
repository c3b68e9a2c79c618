//! Fuel requirements for a list of module masses.

use vstd::prelude::*;

verus! {

/// Fuel needed to launch a module of the given mass, ignoring the mass of
/// the fuel itself: a third of the mass, rounded down, less two, and never
/// below zero.
pub open spec fn naive_fuel(mass: nat) -> nat {
    if mass / 3 >= 2 {
        (mass / 3 - 2) as nat
    } else {
        0
    }
}

/// Fuel needed for a module once the fuel's own mass is accounted for:
/// the naive requirement, plus the requirement of that fuel, and so on
/// until an addition would need no fuel at all.
pub open spec fn fuel(mass: nat) -> nat
    decreases mass,
{
    let first = naive_fuel(mass);
    if first > 0 {
        first + fuel(first)
    } else {
        0
    }
}

/// Sum of `fuel` over a list of masses.
pub open spec fn total_fuel(masses: Seq<u32>) -> nat
    decreases masses.len(),
{
    if masses.len() == 0 {
        0
    } else {
        total_fuel(masses.drop_last()) + fuel(masses.last() as nat)
    }
}

/// The full requirement of a module never exceeds its mass.
pub proof fn lemma_fuel_below_mass(mass: nat)
    ensures
        fuel(mass) <= mass,
        mass > 0 ==> fuel(mass) < mass,
    decreases mass,
{
    let first = naive_fuel(mass);
    if first > 0 {
        lemma_fuel_below_mass(first);
    }
}

/// The total over a list grows with every prefix.
pub proof fn lemma_total_fuel_prefix(masses: Seq<u32>, n: int)
    requires
        0 <= n <= masses.len(),
    ensures
        total_fuel(masses.take(n)) <= total_fuel(masses),
    decreases masses.len() - n,
{
    if n < masses.len() {
        lemma_total_fuel_prefix(masses, n + 1);
        assert(masses.take(n + 1).drop_last() =~= masses.take(n));
    } else {
        assert(masses.take(n) =~= masses);
    }
}

/// Computes `naive_fuel`.
pub fn naive_calculate_fuel(mass: u32) -> (fuel_required: u32)
    ensures
        fuel_required == naive_fuel(mass as nat),
{
    let third: u32 = mass / 3;
    if third >= 2 {
        third - 2
    } else {
        0
    }
}

/// Computes `fuel`.
pub fn calculate_fuel(mass: u32) -> (fuel_required: u32)
    ensures
        fuel_required == fuel(mass as nat),
    decreases mass,
{
    let first: u32 = naive_calculate_fuel(mass);
    if first > 0 {
        proof {
            lemma_fuel_below_mass(first as nat);
        }
        first + calculate_fuel(first)
    } else {
        first
    }
}

/// Decides whether the total for a list fits in a `u32`.
pub fn total_fuel_fits(masses: &Vec<u32>) -> (fits: bool)
    ensures
        fits == (total_fuel(masses@) <= u32::MAX),
{
    let mut total: u64 = 0;
    let mut i: usize = 0;
    while i < masses.len()
        invariant
            i <= masses.len(),
            total == total_fuel(masses@.take(i as int)),
            total <= u32::MAX,
        decreases masses.len() - i,
    {
        let next: u32 = calculate_fuel(masses[i]);
        proof {
            assert(masses@.take(i + 1).drop_last() =~= masses@.take(i as int));
            lemma_total_fuel_prefix(masses@, i + 1);
        }
        total = total + next as u64;
        if total > u32::MAX as u64 {
            return false;
        }
        i = i + 1;
    }
    proof {
        assert(masses@.take(i as int) =~= masses@);
    }
    true
}

/// Computes `total_fuel` for a list whose total fits in a `u32`.
pub fn calculate_total_fuel(masses: &Vec<u32>) -> (total: u32)
    requires
        total_fuel(masses@) <= u32::MAX,
    ensures
        total == total_fuel(masses@),
{
    let mut total: u32 = 0;
    let mut i: usize = 0;
    while i < masses.len()
        invariant
            i <= masses.len(),
            total == total_fuel(masses@.take(i as int)),
            total_fuel(masses@) <= u32::MAX,
        decreases masses.len() - i,
    {
        let next: u32 = calculate_fuel(masses[i]);
        proof {
            assert(masses@.take(i + 1).drop_last() =~= masses@.take(i as int));
            lemma_total_fuel_prefix(masses@, i + 1);
        }
        total = total + next;
        i = i + 1;
    }
    proof {
        assert(masses@.take(i as int) =~= masses@);
    }
    total
}

} // verus!

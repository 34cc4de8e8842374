//! Solutions to problems 121 through 130, in the series named `pNNN`.
use vstd::prelude::*;
use crate::solver::Solver;

verus! {

/// Hexagonal tile differences: not solved.
pub fn p128() -> (r: String)
    ensures
        r@ == "p128 = unimplemented"@,
{
    String::from_str("p128 = unimplemented")
}

/// Repunit divisibility: not solved.
pub fn p129() -> (r: String)
    ensures
        r@ == "p129 = unimplemented"@,
{
    String::from_str("p129 = unimplemented")
}

/// Composites with prime repunit property: not solved.
pub fn p130() -> (r: String)
    ensures
        r@ == "p130 = unimplemented"@,
{
    String::from_str("p130 = unimplemented")
}

/// The solutions of this range that a run takes: none. The solvers of the
/// range's solved problems are not part of this crate, and the unsolved
/// problems are left out of a run.
pub fn get_functions() -> (fns: Vec<Solver>)
    ensures
        fns@ == Seq::<Solver>::empty(),
{
    let fns: Vec<Solver> = Vec::new();
    assert(fns@ =~= Seq::<Solver>::empty());
    fns
}

} // verus!

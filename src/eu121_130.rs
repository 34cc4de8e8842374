//! Solutions to problems 121 through 130.
use vstd::prelude::*;
use crate::solver::Solver;

verus! {

/// abc-hits: not solved.
pub fn eu127() -> (r: String)
    ensures
        r@ == "eu127 = unimplemented"@,
{
    String::from_str("eu127 = unimplemented")
}

/// Hexagonal tile differences: not solved.
pub fn eu128() -> (r: String)
    ensures
        r@ == "eu128 = unimplemented"@,
{
    String::from_str("eu128 = unimplemented")
}

/// Repunit divisibility: not solved.
pub fn eu129() -> (r: String)
    ensures
        r@ == "eu129 = unimplemented"@,
{
    String::from_str("eu129 = unimplemented")
}

/// Composites with prime repunit property: not solved.
pub fn eu130() -> (r: String)
    ensures
        r@ == "eu130 = unimplemented"@,
{
    String::from_str("eu130 = unimplemented")
}

/// The solutions of this range that a run takes: none. The solvers of the
/// range's solved problems are not part of this crate, and the unsolved
/// problems are left out of a run.
pub fn get_functions() -> (fns: Vec<Solver>)
    ensures
        fns@ == Seq::<Solver>::empty(),
{
    let fns: Vec<Solver> = Vec::new();
    assert(fns@ =~= Seq::<Solver>::empty());
    fns
}

} // verus!

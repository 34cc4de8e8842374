//! Solutions to problems 71 through 80, in the series named `pNNN`.
use vstd::prelude::*;
use crate::solver::Solver;
use crate::decimal::{answer, answer_wide, labeled};
use crate::eu071_080::{left_of_three_sevenths, counting_summations, partitions};

verus! {

/// Ordered fractions.
pub fn p071() -> (r: String)
    ensures
        r@ == labeled("p071"@, 428570),
{
    answer("p071", left_of_three_sevenths())
}

/// Counting summations.
pub fn p076() -> (r: String)
    ensures
        r@ == labeled("p076"@, partitions(99, 100)),
{
    answer_wide("p076", counting_summations(100))
}

/// The solutions of this range, in problem order.
pub fn get_functions() -> (fns: Vec<Solver>)
    ensures
        fns@ == seq![Solver::P071, Solver::P076],
{
    let mut fns: Vec<Solver> = Vec::new();
    fns.push(Solver::P071);
    fns.push(Solver::P076);
    assert(fns@ =~= seq![Solver::P071, Solver::P076]);
    fns
}

} // verus!

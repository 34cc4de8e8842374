//! Solutions to problems 21 through 30, in the series named `pNNN`.
use vstd::prelude::*;
use crate::solver::Solver;
use crate::decimal::{answer, labeled};
use crate::eu021_030::{spiral_diagonals, digit_fifth_powers, reciprocal_cycles, digit_pow5_total, longest_cycle_denominator};

verus! {

/// Number spiral diagonals.
pub fn p028() -> (r: String)
    ensures
        r@ == labeled("p028"@, 669171001),
{
    answer("p028", spiral_diagonals())
}

/// Digit fifth powers.
pub fn p030() -> (r: String)
    ensures
        r@ == labeled("p030"@, digit_pow5_total(236196)),
{
    answer("p030", digit_fifth_powers())
}

/// Reciprocal cycles.
pub fn p026() -> (r: String)
    ensures
        exists|d: nat| r@ == labeled("p026"@, d) && longest_cycle_denominator(d),
{
    let d = reciprocal_cycles();
    answer("p026", d)
}

/// The solutions of this range, in problem order.
pub fn get_functions() -> (fns: Vec<Solver>)
    ensures
        fns@ == seq![Solver::P026, Solver::P028, Solver::P030],
{
    let mut fns: Vec<Solver> = Vec::new();
    fns.push(Solver::P026);
    fns.push(Solver::P028);
    fns.push(Solver::P030);
    assert(fns@ =~= seq![Solver::P026, Solver::P028, Solver::P030]);
    fns
}

} // verus!

//! Solutions to problems 111 through 120, in the series named `pNNN`.
use vstd::prelude::*;
use crate::solver::Solver;
use crate::decimal::{answer, labeled};
use crate::eu111_120::{red_green_or_blue, mixed_ways, square_remainders, count_blocks, least_exceeding, least_bouncy_proportion, one_colour_replacements, mixed_tile_ways, square_remainder_total, block_ways, bouncy_count};

verus! {

/// Red, green or blue tiles.
pub fn p116() -> (r: String)
    ensures
        r@ == labeled("p116"@, one_colour_replacements()),
{
    answer("p116", red_green_or_blue())
}

/// Red, green, and blue tiles.
pub fn p117() -> (r: String)
    ensures
        r@ == labeled("p117"@, mixed_tile_ways(50)),
{
    answer("p117", mixed_ways(50))
}

/// Square remainders.
pub fn p120() -> (r: String)
    ensures
        r@ == labeled("p120"@, square_remainder_total(1001)),
{
    answer("p120", square_remainders())
}

/// Counting block combinations I.
pub fn p114() -> (r: String)
    ensures
        r@ == labeled("p114"@, block_ways(50, 3)),
{
    answer("p114", count_blocks(50, 3))
}

/// Counting block combinations II.
pub fn p115() -> (r: String)
    ensures
        exists|n: nat|
            r@ == labeled("p115"@, n) && n >= 1 && block_ways(n, 50) > 1_000_000 && forall|j: nat|
                1 <= j < n ==> #[trigger] block_ways(j, 50) <= 1_000_000,
{
    let n = least_exceeding(50, 1_000_000);
    answer("p115", n as u64)
}

/// Bouncy numbers: where ninety-nine percent of the numbers up to it are bouncy.
pub fn p112() -> (r: String)
    ensures
        exists|n: nat|
            r@ == labeled("p112"@, n) && ((n != 0 && 100 * bouncy_count(n) == 99 * n && forall|
                j: nat,
            |
                1 <= j < n ==> 100 * #[trigger] bouncy_count(j) != 99 * j) || (n == 0 && forall|
                j: nat,
            | 1 <= j < u64::MAX / 100 ==> 100 * #[trigger] bouncy_count(j) != 99 * j)),
{
    let n = least_bouncy_proportion(99);
    answer("p112", n)
}

/// The solutions of this range, in problem order.
pub fn get_functions() -> (fns: Vec<Solver>)
    ensures
        fns@ == seq![Solver::P112, Solver::P114, Solver::P115, Solver::P116, Solver::P117, Solver::P120],
{
    let mut fns: Vec<Solver> = Vec::new();
    fns.push(Solver::P112);
    fns.push(Solver::P114);
    fns.push(Solver::P115);
    fns.push(Solver::P116);
    fns.push(Solver::P117);
    fns.push(Solver::P120);
    assert(fns@ =~= seq![Solver::P112, Solver::P114, Solver::P115, Solver::P116, Solver::P117, Solver::P120]);
    fns
}

} // verus!

//! Solutions to problems 51 through 60, in the series named `pNNN`.
use vstd::prelude::*;
use crate::solver::Solver;
use crate::decimal::{answer, labeled};
use crate::eu011_020::binomial;

verus! {

/// The `r` with `r < rr` for which `n choose r` exceeds one million.
pub open spec fn large_in_row(n: nat, rr: nat) -> nat
    decreases rr,
{
    if rr == 0 {
        0
    } else {
        large_in_row(n, (rr - 1) as nat) + if binomial(n, (rr - 1) as nat) > 1_000_000 {
            1nat
        } else {
            0
        }
    }
}

/// The pairs `1 <= n < nn`, `0 <= r <= n`, for which `n choose r` exceeds one
/// million.
pub open spec fn large_binomials(nn: nat) -> nat
    decreases nn,
{
    if nn <= 1 {
        0
    } else {
        large_binomials((nn - 1) as nat) + large_in_row((nn - 1) as nat, nn as nat)
    }
}

/// `x`, or the cap `1_000_001` where `x` is larger.
pub open spec fn capped(x: nat) -> nat {
    if x > 1_000_001 {
        1_000_001
    } else {
        x
    }
}

/// Combinatoric selections: a row of Pascal's triangle is kept with its entries
/// capped just above one million, which keeps the comparison exact.
fn combinatoric_selections() -> (r: u64)
    ensures
        r == large_binomials(101),
{
    let mut row: Vec<u64> = vec![0; 101];
    row.set(0, 1);
    let mut cnt: u64 = 0;
    let mut n: usize = 0;
    while n < 100
        invariant
            n <= 100,
            row@.len() == 101,
            forall|k: int| 0 <= k <= 100 ==> #[trigger] row@[k] == capped(binomial(n as nat, k as nat)),
            cnt == large_binomials(n as nat + 1),
            cnt <= 101 * n,
        decreases 100 - n,
    {
        let mut k: usize = 100;
        while k > 0
            invariant
                0 <= k <= 100,
                n < 100,
                row@.len() == 101,
                forall|j: int| 0 <= j <= k ==> #[trigger] row@[j] == capped(binomial(n as nat, j as nat)),
                forall|j: int|
                    k < j <= 100 ==> #[trigger] row@[j] == capped(binomial((n + 1) as nat, j as nat)),
            decreases k,
        {
            let v = row[k] + row[k - 1];
            let c = if v > 1_000_001 {
                1_000_001
            } else {
                v
            };
            row.set(k, c);
            k = k - 1;
        }
        assert(row@[0] == capped(binomial((n + 1) as nat, 0)));
        let mut r: usize = 0;
        let mut large: u64 = 0;
        while r <= n + 1
            invariant
                n < 100,
                r <= n + 2,
                row@.len() == 101,
                forall|j: int|
                    0 <= j <= 100 ==> #[trigger] row@[j] == capped(binomial((n + 1) as nat, j as nat)),
                large == large_in_row((n + 1) as nat, r as nat),
                large <= r,
            decreases n + 2 - r,
        {
            if row[r] > 1_000_000 {
                large = large + 1;
            }
            r = r + 1;
        }
        cnt = cnt + large;
        n = n + 1;
    }
    cnt
}

/// Combinatoric selections.
pub fn p053() -> (r: String)
    ensures
        r@ == labeled("p053"@, large_binomials(101)),
{
    answer("p053", combinatoric_selections())
}

/// The solutions of this range, in problem order.
pub fn get_functions() -> (fns: Vec<Solver>)
    ensures
        fns@ == seq![Solver::P053],
{
    let mut fns: Vec<Solver> = Vec::new();
    fns.push(Solver::P053);
    assert(fns@ =~= seq![Solver::P053]);
    fns
}

} // verus!

//! Solutions to problems 71 through 80.
use vstd::prelude::*;
use crate::solver::Solver;
use vstd::arithmetic::power2::{pow2, lemma_pow2_unfold, lemma_pow2_strictly_increases, lemma2_to64};
use crate::decimal::{answer, answer_wide, labeled};

verus! {

/// Ordered fractions: the numerator of the fraction just left of 3/7 among the
/// reduced fractions with denominators up to one million.
pub(crate) fn left_of_three_sevenths() -> (n: u64)
    ensures
        n == 428570,
{
    let mut numer: u64 = 2;
    let mut denom: u64 = 5;
    while denom + 7 <= 1_000_000
        invariant
            7 * numer == 3 * denom - 1,
            denom % 7 == 5,
            denom <= 1_000_000,
        decreases 1_000_000 - denom,
    {
        numer = numer + 3;
        denom = denom + 7;
    }
    assert(denom == 999997);
    numer
}

/// Ordered fractions.
pub fn eu071() -> (r: String)
    ensures
        r@ == labeled("eu071"@, 428570),
{
    answer("eu071", left_of_three_sevenths())
}

/// The ways to write `j` as a sum of positive parts none greater than `i`,
/// the order of the parts not counting.
pub open spec fn partitions(i: nat, j: nat) -> nat
    decreases i, j,
{
    if i == 0 {
        if j == 0 {
            1
        } else {
            0
        }
    } else {
        partitions((i - 1) as nat, j) + if j >= i {
            partitions(i, (j - i) as nat)
        } else {
            0
        }
    }
}

proof fn lemma_pow2_le(a: nat, b: nat)
    requires
        a <= b,
    ensures
        pow2(a) <= pow2(b),
{
    if a < b {
        lemma_pow2_strictly_increases(a, b);
    }
}

/// There are fewer partitions of `j` than compositions: at most `2^j`.
proof fn lemma_partitions_bound(i: nat, j: nat)
    ensures
        j == 0 ==> partitions(i, j) == 1,
        j > 0 ==> partitions(i, j) + pow2((j - if i < j {
            i
        } else {
            j
        }) as nat) <= pow2(j),
        partitions(i, j) <= pow2(j),
    decreases j, i,
{
    lemma2_to64();
    if i == 0 {
    } else {
        lemma_partitions_bound((i - 1) as nat, j);
        if j >= i {
            lemma_partitions_bound(i, (j - i) as nat);
            lemma_pow2_unfold((j - i + 1) as nat);
            if j > i {
                lemma_pow2_le((j - i) as nat, j);
            }
        }
    }
}

/// Counting summations: the ways to write `n` as a sum of at least two
/// positive integers.
pub(crate) fn counting_summations(n: usize) -> (r: u128)
    requires
        1 <= n <= 100,
    ensures
        r == partitions((n - 1) as nat, n as nat),
{
    let mut sum: Vec<u128> = vec![0; n + 1];
    sum.set(0, 1);
    proof {
        lemma2_to64();
        vstd::arithmetic::power2::lemma2_to64_rest();
        lemma_pow2_le(n as nat, 100);
        vstd::arithmetic::power2::lemma_pow2_adds(64, 36);
        assert(pow2(100) == 0x10000000000000000000000000);
        assert forall|k: int| 0 <= k <= n implies #[trigger] sum@[k] == partitions(0, k as nat) by {
        }
    }
    let mut i: usize = 1;
    while i < n
        invariant
            1 <= i <= n <= 100,
            sum@.len() == n + 1,
            pow2(n as nat) <= 0x10000000000000000000000000,
            forall|k: int| 0 <= k <= n ==> #[trigger] sum@[k] == partitions((i - 1) as nat, k as nat),
        decreases n - i,
    {
        let mut j: usize = i;
        while j <= n
            invariant
                1 <= i <= j <= n + 1,
                n <= 100,
                sum@.len() == n + 1,
                pow2(n as nat) <= 0x10000000000000000000000000,
                forall|k: int| 0 <= k < j ==> #[trigger] sum@[k] == partitions(i as nat, k as nat),
                forall|k: int| j <= k <= n ==> #[trigger] sum@[k] == partitions((i - 1) as nat, k as nat),
            decreases n + 1 - j,
        {
            proof {
                lemma_partitions_bound(i as nat, j as nat);
                lemma_pow2_le(j as nat, n as nat);
            }
            let v = sum[j] + sum[j - i];
            sum.set(j, v);
            j = j + 1;
        }
        i = i + 1;
    }
    sum[n]
}

/// Counting summations.
pub fn eu076() -> (r: String)
    ensures
        r@ == labeled("eu076"@, partitions(99, 100)),
{
    answer_wide("eu076", counting_summations(100))
}

/// The solutions of this range, in problem order.
pub fn get_functions() -> (fns: Vec<Solver>)
    ensures
        fns@ == seq![Solver::Eu071, Solver::Eu076],
{
    let mut fns: Vec<Solver> = Vec::new();
    fns.push(Solver::Eu071);
    fns.push(Solver::Eu076);
    assert(fns@ =~= seq![Solver::Eu071, Solver::Eu076]);
    fns
}

} // verus!

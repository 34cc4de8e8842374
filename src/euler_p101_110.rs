//! Solutions to problems 101 through 110, in the series named `pNNN`.
use vstd::prelude::*;
use crate::solver::Solver;
use crate::decimal::{answer, labeled};

verus! {

/// The `i`-th score of a single dart, `i < 63`: a miss, the outer and inner
/// bull, then single, double and treble of each of 1 to 20.
pub open spec fn dart_score(i: nat) -> nat {
    if i == 0 {
        0
    } else if i == 1 {
        25
    } else if i == 2 {
        50
    } else {
        ((i - 3) as nat % 3 + 1) * ((i - 3) as nat / 3 + 1)
    }
}

/// The `k`-th double, `k < 21`: the inner bull, then double 1 to double 20.
pub open spec fn double_score(k: nat) -> nat {
    if k == 0 {
        50
    } else {
        2 * k
    }
}

/// Finishing doubles `k < kk` that, after darts `i` and `j`, leave a total below `n`.
pub open spec fn finishes(i: nat, j: nat, kk: nat, n: nat) -> nat
    decreases kk,
{
    if kk == 0 {
        0
    } else {
        finishes(i, j, (kk - 1) as nat, n) + if dart_score(i) + dart_score(j) + double_score(
            (kk - 1) as nat,
        ) < n {
            1nat
        } else {
            0
        }
    }
}

/// The finishes after dart `i` and a second dart `j` with `i <= j < jj`.
pub open spec fn finishes_after(i: nat, jj: nat, n: nat) -> nat
    decreases jj,
{
    if jj <= i {
        0
    } else {
        finishes_after(i, (jj - 1) as nat, n) + finishes(i, (jj - 1) as nat, 21, n)
    }
}

/// The distinct ways to check out with a total below `n`: a first and second
/// dart in any order (the second possibly a miss, counted once per unordered
/// pair), and a double to finish; over first darts `i < ii`.
pub open spec fn checkouts(ii: nat, n: nat) -> nat
    decreases ii,
{
    if ii == 0 {
        0
    } else {
        checkouts((ii - 1) as nat, n) + finishes_after((ii - 1) as nat, 63, n)
    }
}

/// The dart scores and the finishing doubles, in the order of `dart_score`
/// and `double_score`.
fn get_scores() -> (r: (Vec<u64>, Vec<u64>))
    ensures
        r.0@.len() == 63,
        r.1@.len() == 21,
        forall|i: int| 0 <= i < 63 ==> #[trigger] r.0@[i] == dart_score(i as nat),
        forall|k: int| 0 <= k < 21 ==> #[trigger] r.1@[k] == double_score(k as nat),
{
    let mut scores: Vec<u64> = Vec::new();
    scores.push(0);
    scores.push(25);
    scores.push(50);
    let mut doubles: Vec<u64> = Vec::new();
    doubles.push(50);
    let mut i: u64 = 1;
    while i < 21
        invariant
            1 <= i <= 21,
            scores@.len() == 3 * i,
            doubles@.len() == i,
            forall|x: int| 0 <= x < 3 * i ==> #[trigger] scores@[x] == dart_score(x as nat),
            forall|k: int| 0 <= k < i ==> #[trigger] doubles@[k] == double_score(k as nat),
        decreases 21 - i,
    {
        let ghost before = scores@;
        scores.push(i);
        scores.push(2 * i);
        scores.push(3 * i);
        doubles.push(2 * i);
        proof {
            assert forall|x: int| 0 <= x < 3 * (i + 1) implies #[trigger] scores@[x] == dart_score(
                x as nat,
            ) by {
                let t = (x - 3) as nat;
                if x < 3 * i {
                    assert(scores@[x] == before[x]);
                } else if x == 3 * i {
                    assert(t / 3 == i - 1 && t % 3 == 0);
                    assert(scores@[x] == i);
                    assert(dart_score(x as nat) == (t % 3 + 1) * (t / 3 + 1));
                    assert((t % 3 + 1) * (t / 3 + 1) == i) by (nonlinear_arith)
                        requires
                            t % 3 == 0,
                            t / 3 == i - 1,
                            i >= 1,
                    ;
                } else if x == 3 * i + 1 {
                    assert(t / 3 == i - 1 && t % 3 == 1);
                    assert(scores@[x] == 2 * i);
                    assert(dart_score(x as nat) == (t % 3 + 1) * (t / 3 + 1));
                    assert((t % 3 + 1) * (t / 3 + 1) == 2 * i) by (nonlinear_arith)
                        requires
                            t % 3 == 1,
                            t / 3 == i - 1,
                            i >= 1,
                    ;
                } else if x == 3 * i + 2 {
                    assert(t / 3 == i - 1 && t % 3 == 2);
                    assert(scores@[x] == 3 * i);
                    assert(dart_score(x as nat) == (t % 3 + 1) * (t / 3 + 1));
                    assert((t % 3 + 1) * (t / 3 + 1) == 3 * i) by (nonlinear_arith)
                        requires
                            t % 3 == 2,
                            t / 3 == i - 1,
                            i >= 1,
                    ;
                }
            }
        }
        i = i + 1;
    }
    (scores, doubles)
}

/// Darts: the distinct ways to check out with a total below `n`.
pub fn count_checkouts(n: u64) -> (r: u64)
    ensures
        r == checkouts(63, n as nat),
{
    let (scores, doubles) = get_scores();
    let mut cnt: u64 = 0;
    let mut i: usize = 0;
    while i < 63
        invariant
            i <= 63,
            scores@.len() == 63,
            doubles@.len() == 21,
            forall|x: int| 0 <= x < 63 ==> #[trigger] scores@[x] == dart_score(x as nat),
            forall|k: int| 0 <= k < 21 ==> #[trigger] doubles@[k] == double_score(k as nat),
            cnt == checkouts(i as nat, n as nat),
            cnt <= i * 63 * 21,
        decreases 63 - i,
    {
        let mut part: u64 = 0;
        let mut j: usize = i;
        while j < 63
            invariant
                i < 63,
                i <= j <= 63,
                scores@.len() == 63,
                doubles@.len() == 21,
                forall|x: int| 0 <= x < 63 ==> #[trigger] scores@[x] == dart_score(x as nat),
                forall|k: int| 0 <= k < 21 ==> #[trigger] doubles@[k] == double_score(k as nat),
                part == finishes_after(i as nat, j as nat, n as nat),
                part <= (j - i) * 21,
            decreases 63 - j,
        {
            let mut c: u64 = 0;
            let mut k: usize = 0;
            while k < 21
                invariant
                    i <= j < 63,
                    k <= 21,
                    scores@.len() == 63,
                    doubles@.len() == 21,
                    forall|x: int| 0 <= x < 63 ==> #[trigger] scores@[x] == dart_score(x as nat),
                    forall|x: int| 0 <= x < 21 ==> #[trigger] doubles@[x] == double_score(x as nat),
                    c == finishes(i as nat, j as nat, k as nat, n as nat),
                    c <= k,
                decreases 21 - k,
            {
                assert(scores@[i as int] <= 60 && scores@[j as int] <= 60 && doubles@[k as int] <= 50)
                    by (nonlinear_arith)
                    requires
                        scores@[i as int] == dart_score(i as nat),
                        scores@[j as int] == dart_score(j as nat),
                        doubles@[k as int] == double_score(k as nat),
                        i < 63,
                        j < 63,
                        k < 21,
                ;
                if scores[i] + scores[j] + doubles[k] < n {
                    c = c + 1;
                }
                k = k + 1;
            }
            part = part + c;
            j = j + 1;
        }
        assert(cnt + part <= (i + 1) * 63 * 21) by (nonlinear_arith)
            requires
                cnt <= i * 63 * 21,
                part <= 63 * 21,
        ;
        cnt = cnt + part;
        i = i + 1;
    }
    cnt
}

/// Darts.
pub fn p109() -> (r: String)
    ensures
        r@ == labeled("p109"@, checkouts(63, 100)),
{
    answer("p109", count_checkouts(100))
}

/// The solutions of this range, in problem order.
pub fn get_functions() -> (fns: Vec<Solver>)
    ensures
        fns@ == seq![Solver::P109],
{
    let mut fns: Vec<Solver> = Vec::new();
    fns.push(Solver::P109);
    assert(fns@ =~= seq![Solver::P109]);
    fns
}

} // verus!

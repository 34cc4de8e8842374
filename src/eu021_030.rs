//! Solutions to problems 21 through 30.
use vstd::prelude::*;
use crate::solver::Solver;
use vstd::arithmetic::power::pow;
use vstd::arithmetic::div_mod::lemma_mul_mod_noop_right;
use crate::decimal::{answer, labeled};

verus! {

/// The sum of the numbers on both diagonals of a 1001 by 1001 number spiral:
/// the ring of side `i` (odd, from 3) adds its four corners, `4 i^2 - 6 (i - 1)`.
pub(crate) fn spiral_diagonals() -> (s: u64)
    ensures
        s == 669171001,
{
    let mut sum: u64 = 1;
    let mut k: u64 = 0;
    while k < 500
        invariant
            k <= 500,
            3 * sum == 3 + 8 * k * (k + 1) * (2 * k + 1) + 6 * k * (k + 1) + 12 * k,
        decreases 500 - k,
    {
        let i: u64 = 2 * k + 3;
        proof {
            let k1 = k + 1;
            assert(3 * (sum + 4 * i * i - 6 * (i - 1)) == 3 + 8 * k1 * (k1 + 1) * (2 * k1 + 1) + 6
                * k1 * (k1 + 1) + 12 * k1) by (nonlinear_arith)
                requires
                    3 * sum == 3 + 8 * k * (k + 1) * (2 * k + 1) + 6 * k * (k + 1) + 12 * k,
                    k1 == k + 1,
                    i == 2 * k + 3,
            ;
            assert(8 * k1 * (k1 + 1) * (2 * k1 + 1) + 6 * k1 * (k1 + 1) + 12 * k1 <= 8 * 500 * 501
                * 1001 + 6 * 500 * 501 + 12 * 500) by (nonlinear_arith)
                requires
                    k1 <= 500,
            ;
            assert(i * i <= 1001 * 1001) by (nonlinear_arith)
                requires
                    i <= 1001,
            ;
        }
        sum = sum + 4 * i * i - 6 * (i - 1);
        k = k + 1;
    }
    assert(3 * sum == 2007513003) by (nonlinear_arith)
        requires
            k == 500,
            3 * sum == 3 + 8 * k * (k + 1) * (2 * k + 1) + 6 * k * (k + 1) + 12 * k,
    ;
    sum
}

/// Number spiral diagonals.
pub fn eu028() -> (r: String)
    ensures
        r@ == labeled("eu028"@, 669171001),
{
    answer("eu028", spiral_diagonals())
}

/// The fifth power of a digit.
pub open spec fn pow5(d: nat) -> nat {
    d * d * d * d * d
}

/// The sum of the fifth powers of the decimal digits of `n`.
pub open spec fn digit_pow5_sum(n: nat) -> nat
    decreases n,
{
    if n == 0 {
        0
    } else {
        pow5(n % 10) + digit_pow5_sum(n / 10)
    }
}

/// The sum of the numbers `x` with `2 <= x < n` that equal the sum of the fifth
/// powers of their digits.
pub open spec fn digit_pow5_total(n: nat) -> nat
    decreases n,
{
    if n <= 2 {
        0
    } else {
        digit_pow5_total((n - 1) as nat) + if digit_pow5_sum((n - 1) as nat) == n - 1 {
            (n - 1) as nat
        } else {
            0
        }
    }
}

proof fn lemma_digit_pow5_sum_bound(n: nat)
    ensures
        digit_pow5_sum(n) <= 59049 * n,
    decreases n,
{
    if n > 0 {
        lemma_digit_pow5_sum_bound(n / 10);
        let d = n % 10;
        assert(pow5(d) <= 59049) by (nonlinear_arith)
            requires
                d < 10,
        ;
    }
}

/// The sum of the fifth powers of the digits of `n`.
fn sum_pow5(n: u64) -> (s: u64)
    requires
        n < 1_000_000,
    ensures
        s == digit_pow5_sum(n as nat),
{
    let mut total: u64 = 0;
    let mut t: u64 = n;
    proof {
        lemma_digit_pow5_sum_bound(n as nat);
    }
    while t != 0
        invariant
            total + digit_pow5_sum(t as nat) == digit_pow5_sum(n as nat),
            digit_pow5_sum(n as nat) <= 59049 * n,
            n < 1_000_000,
        decreases t,
    {
        let d = t % 10;
        assert(d * d <= 81 && d * d * d <= 729 && d * d * d * d <= 6561 && d * d * d * d * d
            <= 59049) by (nonlinear_arith)
            requires
                d < 10,
        ;
        total = total + d * d * d * d * d;
        t = t / 10;
    }
    total
}

/// The sum of all numbers that are the sum of the fifth powers of their digits.
/// The search runs below `4 * 9^5`.
pub(crate) fn digit_fifth_powers() -> (s: u64)
    ensures
        s == digit_pow5_total(236196),
{
    let mut sum: u64 = 0;
    let mut x: u64 = 2;
    while x < 236196
        invariant
            2 <= x <= 236196,
            sum == digit_pow5_total(x as nat),
            sum <= x * x,
        decreases 236196 - x,
    {
        let p = sum_pow5(x);
        assert((x + 1) * (x + 1) == x * x + 2 * x + 1) by (nonlinear_arith);
        assert(x * x <= 236196 * 236196) by (nonlinear_arith)
            requires
                x <= 236196,
        ;
        if p == x {
            sum = sum + x;
        }
        x = x + 1;
    }
    sum
}

/// Digit fifth powers.
pub fn eu030() -> (r: String)
    ensures
        r@ == labeled("eu030"@, digit_pow5_total(236196)),
{
    answer("eu030", digit_fifth_powers())
}

/// The least `c >= from` with `c >= n` or `10^(c-1) = 1 (mod n)`.
pub open spec fn cycle_from(n: nat, c: nat) -> nat
    decreases n - c,
{
    if c >= n || n == 0 || pow(10, (c - 1) as nat) % (n as int) == 1 {
        c
    } else {
        cycle_from(n, c + 1)
    }
}

/// The length measured for the recurring cycle of `1/n`: one more than the
/// order of 10 modulo `n` when that is below `n - 1`, else `n`; and 2 for a
/// multiple of 5.
pub open spec fn repeat_len(n: nat) -> nat {
    if n % 5 == 0 {
        2
    } else {
        cycle_from(n, 2)
    }
}

fn repeat_cnt(n: u64) -> (c: u64)
    requires
        3 <= n < 1000,
    ensures
        c == repeat_len(n as nat),
        c >= 2,
{
    let mut cnt: u64 = 2;
    if n % 5 != 0 {
        let mut md: u64 = 10 % n;
        proof {
            vstd::arithmetic::power::lemma_pow1(10);
        }
        while md != 1 && cnt != n
            invariant
                3 <= n < 1000,
                n % 5 != 0,
                2 <= cnt <= n,
                md == pow(10, (cnt - 1) as nat) % (n as int),
                cycle_from(n as nat, cnt as nat) == cycle_from(n as nat, 2),
            decreases n - cnt,
        {
            proof {
                reveal(pow);
                lemma_mul_mod_noop_right(10, pow(10, (cnt - 1) as nat), n as int);
                assert(pow(10, cnt as nat) == 10 * pow(10, (cnt - 1) as nat));
            }
            md = (10 * md) % n;
            cnt = cnt + 1;
        }
    }
    cnt
}

/// Whether `d` is the first odd number in `3..1000` whose cycle length is the
/// largest among them.
pub open spec fn longest_cycle_denominator(d: nat) -> bool {
    &&& 3 <= d < 1000
    &&& d % 2 == 1
    &&& forall|i: nat| 3 <= i < 1000 && i % 2 == 1 ==> #[trigger] repeat_len(i) <= repeat_len(d)
    &&& forall|i: nat| 3 <= i < d && i % 2 == 1 ==> #[trigger] repeat_len(i) < repeat_len(d)
}

pub(crate) fn reciprocal_cycles() -> (d: u64)
    ensures
        longest_cycle_denominator(d as nat),
{
    let mut max: u64 = 0;
    let mut idx: u64 = 0;
    let mut i: u64 = 3;
    while i < 1000
        invariant
            3 <= i <= 1001,
            i % 2 == 1,
            i > 3 ==> 3 <= idx < i && idx % 2 == 1 && max == repeat_len(idx as nat),
            i == 3 ==> max == 0,
            forall|k: nat| 3 <= k < i && k % 2 == 1 ==> #[trigger] repeat_len(k) <= max,
            forall|k: nat| 3 <= k < idx && k % 2 == 1 ==> #[trigger] repeat_len(k) < max,
        decreases 1001 - i,
    {
        let current = repeat_cnt(i);
        if current > max {
            max = current;
            idx = i;
        }
        i = i + 2;
    }
    idx
}

/// Reciprocal cycles.
pub fn eu026() -> (r: String)
    ensures
        exists|d: nat| r@ == labeled("eu026"@, d) && longest_cycle_denominator(d),
{
    let d = reciprocal_cycles();
    answer("eu026", d)
}

/// The divisors `d` of `n` with `1 <= d < min(k, n)`, added up.
pub open spec fn divisors_below(n: nat, k: nat) -> nat
    decreases k,
{
    if k == 0 {
        0
    } else {
        divisors_below(n, (k - 1) as nat) + if 1 <= k - 1 < n && n % (k - 1) as nat == 0 {
            (k - 1) as nat
        } else {
            0
        }
    }
}

/// The sum of the proper divisors of `n`.
pub open spec fn divisor_sum(n: nat) -> nat {
    divisors_below(n, n)
}

proof fn lemma_divisors_below_bound(n: nat, k: nat)
    ensures
        divisors_below(n, k) <= k * k,
    decreases k,
{
    if k > 0 {
        lemma_divisors_below_bound(n, (k - 1) as nat);
        assert((k - 1) * (k - 1) + k <= k * k) by (nonlinear_arith)
            requires
                k >= 1,
        ;
    }
}

proof fn lemma_divisors_below_full(n: nat, k: nat)
    requires
        k >= n,
    ensures
        divisors_below(n, k) == divisor_sum(n),
    decreases k,
{
    if k > n {
        lemma_divisors_below_full(n, (k - 1) as nat);
    }
}

proof fn lemma_one_multiple(i: nat, a: nat, j: nat)
    requires
        i > 0,
        j % i == 0,
        a * i <= j < a * i + i,
    ensures
        j == a * i,
{
    vstd::arithmetic::div_mod::lemma_fundamental_div_mod(j as int, i as int);
    let b = j / i;
    assert(j == a * i) by (nonlinear_arith)
        requires
            j == i * b,
            a * i <= j < a * i + i,
            i > 0,
    ;
}

/// The sums of the proper divisors of the numbers below `n`, by a sieve.
pub(crate) fn divisor_sum_list(n: usize) -> (d: Vec<u64>)
    requires
        n <= 100_000,
    ensures
        d@.len() == n,
        forall|j: int| 0 <= j < n ==> #[trigger] d@[j] == divisor_sum(j as nat),
{
    let mut d: Vec<u64> = vec![0; n];
    assert forall|j: int| 0 <= j < n implies #[trigger] d@[j] == divisors_below(j as nat, 1) by {
        assert(d@[j] == 0);
        assert(divisors_below(j as nat, 0) == 0);
    }
    let mut i: usize = 1;
    while i < n
        invariant
            1 <= i <= n || n == 0,
            n <= 100_000,
            d@.len() == n,
            forall|j: int| 0 <= j < n ==> #[trigger] d@[j] == divisors_below(j as nat, i as nat),
        decreases n - i,
    {
        let mut m: usize = 2 * i;
        let ghost mut c: nat = 2;
        while m < n
            invariant
                1 <= i < n <= 100_000,
                m >= 2 * i,
                m == c * i,
                m <= n + i,
                d@.len() == n,
                forall|j: int|
                    0 <= j < n ==> #[trigger] d@[j] == divisors_below(j as nat, i as nat) + if j
                        % i as int == 0 && 2 * i <= j < m {
                        i as nat
                    } else {
                        0
                    },
            decreases n + i - m,
        {
            proof {
                lemma_divisors_below_bound(m as nat, i as nat);
                vstd::arithmetic::div_mod::lemma_mod_multiples_basic(c as int, i as int);
                assert(i * i <= 100_000 * 100_000) by (nonlinear_arith)
                    requires
                        i < 100_000,
                ;
            }
            let ghost prev = m;
            let v = d[m] + i as u64;
            d.set(m, v);
            m = m + i;
            proof {
                assert((c + 1) * i == c * i + i) by (nonlinear_arith);
                c = c + 1;
                assert forall|j: int| 0 <= j < n implies #[trigger] d@[j] == divisors_below(
                    j as nat,
                    i as nat,
                ) + if j % i as int == 0 && 2 * i <= j < m {
                    i as nat
                } else {
                    0
                } by {
                    if j % i as int == 0 && prev <= j < m {
                        lemma_one_multiple(i as nat, (c - 1) as nat, j as nat);
                    }
                }
            }
        }
        proof {
            assert forall|j: int| 0 <= j < n implies #[trigger] d@[j] == divisors_below(
                j as nat,
                (i + 1) as nat,
            ) by {
                if j % i as int == 0 && i < j && j < 2 * i {
                    lemma_one_multiple(i as nat, 1, j as nat);
                }
            }
        }
        i = i + 1;
    }
    proof {
        assert forall|j: int| 0 <= j < n implies #[trigger] d@[j] == divisor_sum(j as nat) by {
            lemma_divisors_below_full(j as nat, i as nat);
        }
    }
    d
}

/// Over `i < k`: `i` plus its divisor sum, where that sum is another number
/// below 10000 whose divisor sum is `i`.
pub open spec fn amicable_total(k: nat) -> nat
    decreases k,
{
    if k == 0 {
        0
    } else {
        let i = (k - 1) as nat;
        amicable_total(i) + if divisor_sum(i) < 10000 && divisor_sum(i) != i && divisor_sum(
            divisor_sum(i),
        ) == i {
            i + divisor_sum(i)
        } else {
            0
        }
    }
}

/// Amicable numbers: each pair below 10000 is met from both ends, so the total
/// counts each amicable number twice.
fn amicable_numbers() -> (r: u64)
    ensures
        r == amicable_total(10000) / 2,
{
    let amic = divisor_sum_list(10000);
    let mut sum: u64 = 0;
    let mut i: usize = 0;
    while i < 10000
        invariant
            i <= 10000,
            amic@.len() == 10000,
            forall|j: int| 0 <= j < 10000 ==> #[trigger] amic@[j] == divisor_sum(j as nat),
            sum == amicable_total(i as nat),
            sum <= 20000 * i,
        decreases 10000 - i,
    {
        let item = amic[i];
        if item < 10000 && i as u64 != item && i as u64 == amic[item as usize] {
            sum = sum + item + i as u64;
        }
        i = i + 1;
    }
    sum / 2
}

/// Amicable numbers.
pub fn eu021() -> (r: String)
    ensures
        r@ == labeled("eu021"@, amicable_total(10000) / 2),
{
    answer("eu021", amicable_numbers())
}

/// Whether the proper divisors of `n` add up to more than `n`.
pub open spec fn is_abundant(n: nat) -> bool {
    divisor_sum(n) > n
}

/// Whether `i` is the sum of two abundant numbers.
pub open spec fn sum_of_two_abundant(i: nat) -> bool {
    exists|j: nat| 1 <= j < i && #[trigger] is_abundant(j) && is_abundant((i - j) as nat)
}

/// The numbers below `k` that are not the sum of two abundant numbers, added up.
pub open spec fn non_abundant_total(k: nat) -> nat
    decreases k,
{
    if k == 0 {
        0
    } else {
        non_abundant_total((k - 1) as nat) + if sum_of_two_abundant((k - 1) as nat) {
            0
        } else {
            (k - 1) as nat
        }
    }
}

/// Non-abundant sums: every number above 28123 is the sum of two abundant
/// numbers; adds up those below that are not.
fn non_abundant_sums() -> (r: u64)
    ensures
        r == non_abundant_total(28124),
{
    let sums = divisor_sum_list(28124);
    let mut abundant: Vec<bool> = Vec::new();
    let mut n: usize = 0;
    while n < 28124
        invariant
            n <= 28124,
            sums@.len() == 28124,
            forall|j: int| 0 <= j < 28124 ==> #[trigger] sums@[j] == divisor_sum(j as nat),
            abundant@.len() == n,
            forall|j: int| 0 <= j < n ==> #[trigger] abundant@[j] == is_abundant(j as nat),
        decreases 28124 - n,
    {
        abundant.push(sums[n] > n as u64);
        n = n + 1;
    }
    let mut sum: u64 = 0;
    let mut i: usize = 0;
    while i < 28124
        invariant
            i <= 28124,
            abundant@.len() == 28124,
            forall|j: int| 0 <= j < 28124 ==> #[trigger] abundant@[j] == is_abundant(j as nat),
            sum == non_abundant_total(i as nat),
            sum <= i * i,
        decreases 28124 - i,
    {
        let mut found = false;
        let mut j: usize = 1;
        while j < i && !found
            invariant
                i < 28124,
                1 <= j,
                abundant@.len() == 28124,
                forall|x: int| 0 <= x < 28124 ==> #[trigger] abundant@[x] == is_abundant(x as nat),
                found ==> sum_of_two_abundant(i as nat),
                !found ==> forall|x: nat|
                    1 <= x < j ==> !(#[trigger] is_abundant(x) && is_abundant((i - x) as nat)),
            decreases i - j,
        {
            if abundant[j] && abundant[i - j] {
                found = true;
                assert(is_abundant(j as nat) && is_abundant((i - j) as nat));
            }
            j = j + 1;
        }
        assert((i + 1) * (i + 1) == i * i + 2 * i + 1) by (nonlinear_arith);
        assert(i * i <= 28124 * 28124) by (nonlinear_arith)
            requires
                i < 28124,
        ;
        if !found {
            sum = sum + i as u64;
        }
        i = i + 1;
    }
    sum
}

/// Non-abundant sums.
pub fn eu023() -> (r: String)
    ensures
        r@ == labeled("eu023"@, non_abundant_total(28124)),
{
    answer("eu023", non_abundant_sums())
}

/// The solutions of this range, in problem order.
pub fn get_functions() -> (fns: Vec<Solver>)
    ensures
        fns@ == seq![Solver::Eu021, Solver::Eu023, Solver::Eu026, Solver::Eu028, Solver::Eu030],
{
    let mut fns: Vec<Solver> = Vec::new();
    fns.push(Solver::Eu021);
    fns.push(Solver::Eu023);
    fns.push(Solver::Eu026);
    fns.push(Solver::Eu028);
    fns.push(Solver::Eu030);
    assert(fns@ =~= seq![Solver::Eu021, Solver::Eu023, Solver::Eu026, Solver::Eu028, Solver::Eu030]);
    fns
}

} // verus!

//! Solutions to problems 91 through 100.
use vstd::prelude::*;
use crate::solver::Solver;
use vstd::arithmetic::power::pow;
use vstd::arithmetic::div_mod::lemma_mul_mod_noop_right;
use crate::decimal::{answer, labeled};

verus! {

/// The last ten digits of the non-Mersenne prime `28433 * 2^7830457 + 1`.
fn large_prime_tail() -> (r: u64)
    ensures
        r == (28433 * pow(2, 7830457)) % 10_000_000_000 + 1,
{
    let mut acc: u64 = 28433;
    let mut k: u64 = 0;
    proof {
        reveal(pow);
    }
    while k < 7830457
        invariant
            k <= 7830457,
            acc == (28433 * pow(2, k as nat)) % 10_000_000_000,
        decreases 7830457 - k,
    {
        proof {
            reveal(pow);
            let p = 28433 * pow(2, k as nat);
            lemma_mul_mod_noop_right(2, p, 10_000_000_000);
            assert(pow(2, (k + 1) as nat) == 2 * pow(2, k as nat));
            assert(28433 * pow(2, (k + 1) as nat) == 2 * p) by (nonlinear_arith)
                requires
                    pow(2, (k + 1) as nat) == 2 * pow(2, k as nat),
                    p == 28433 * pow(2, k as nat),
            ;
        }
        acc = (2 * acc) % 10_000_000_000;
        k = k + 1;
    }
    acc + 1
}

/// Large non-Mersenne prime.
pub fn eu097() -> (r: String)
    ensures
        r@ == labeled("eu097"@, ((28433 * pow(2, 7830457)) % 10_000_000_000 + 1) as nat),
{
    answer("eu097", large_prime_tail())
}

/// The `k`-th solution `(blue, total)` of `2 b (b - 1) = n (n - 1)`, in which
/// the chance of drawing two blue discs from `n` is one half, from `(15, 21)` on.
pub open spec fn disc_pair(k: nat) -> (nat, nat)
    decreases k,
{
    if k == 0 {
        (15, 21)
    } else {
        let (b, n) = disc_pair((k - 1) as nat);
        ((3 * b + 2 * n - 2) as nat, (4 * b + 3 * n - 3) as nat)
    }
}

/// The totals of the solutions after the first, up to the `k`-th, added up.
pub open spec fn disc_total(k: nat) -> nat
    decreases k,
{
    if k == 0 {
        0
    } else {
        disc_total((k - 1) as nat) + disc_pair(k).1
    }
}

/// Arranged probability: the blue discs of the first solution at which the
/// running total of discs reaches 10^12.
fn arranged_probability() -> (r: u64)
    ensures
        exists|k: nat|
            r == (#[trigger] disc_pair(k)).0 && disc_total(k) >= 1_000_000_000_000 && forall|j: nat|
                j < k ==> #[trigger] disc_total(j) < 1_000_000_000_000,
{
    let mut b: u64 = 15;
    let mut n: u64 = 21;
    let mut max: u64 = 0;
    let ghost mut k: nat = 0;
    while max < 1_000_000_000_000
        invariant
            (b as nat, n as nat) == disc_pair(k),
            max == disc_total(k),
            1 <= b < n,
            n <= max + 21,
            max < 9_000_000_000_000,
            forall|j: nat| j < k ==> #[trigger] disc_total(j) < 1_000_000_000_000,
        decreases 9_000_000_000_000 - max,
    {
        let b_new = 3 * b + 2 * n - 2;
        n = 4 * b + 3 * n - 3;
        b = b_new;
        max = max + n;
        proof {
            k = k + 1;
        }
    }
    b
}

/// Arranged probability.
pub fn eu100() -> (r: String)
    ensures
        exists|k: nat|
            r@ == labeled("eu100"@, (#[trigger] disc_pair(k)).0) && disc_total(k)
                >= 1_000_000_000_000 && forall|j: nat|
                j < k ==> #[trigger] disc_total(j) < 1_000_000_000_000,
{
    let b = arranged_probability();
    answer("eu100", b)
}

/// The `n`-th value of a sequence of almost equilateral Heronian triangles,
/// given its first three values: `v(n) = 15 v(n-1) - 15 v(n-2) + v(n-3)`.
pub open spec fn heronian(first: int, second: int, third: int, n: nat) -> int
    decreases n,
{
    if n == 0 {
        0
    } else if n == 1 {
        first
    } else if n == 2 {
        second
    } else if n == 3 {
        third
    } else {
        15 * heronian(first, second, third, (n - 1) as nat) - 15 * heronian(
            first,
            second,
            third,
            (n - 2) as nat,
        ) + heronian(first, second, third, (n - 3) as nat)
    }
}

/// The short side `a` of the `n`-th triangle with sides `a, a, a + 1`.
pub open spec fn short_side(n: nat) -> int {
    heronian(5, 65, 901, n)
}

/// The side `a` of the `n`-th triangle with sides `a + 1, a + 1, a`.
pub open spec fn long_side(n: nat) -> int {
    heronian(16, 240, 3360, n)
}

/// The `j`-th perimeter, alternating between the two kinds of triangle:
/// `3 a + 1` for `a, a, a + 1` and `3 a + 2` for `a + 1, a + 1, a`.
pub open spec fn heronian_perimeter(j: nat) -> int {
    if j % 2 == 0 {
        3 * short_side(j / 2 + 1) + 1
    } else {
        3 * long_side(j / 2 + 1) + 2
    }
}

/// The first `j` perimeters added up.
pub open spec fn perimeter_total(j: nat) -> int
    decreases j,
{
    if j == 0 {
        0
    } else {
        perimeter_total((j - 1) as nat) + heronian_perimeter((j - 1) as nat)
    }
}

/// From the third value on, each value is at least thirteen times the one before.
proof fn lemma_heronian_growth(first: int, second: int, third: int, n: nat)
    requires
        first >= 1,
        second >= 13 * first,
        third >= 13 * second,
        n >= 1,
    ensures
        heronian(first, second, third, n) >= 1,
        n >= 2 ==> heronian(first, second, third, n) >= 13 * heronian(
            first,
            second,
            third,
            (n - 1) as nat,
        ),
    decreases n,
{
    if n >= 4 {
        lemma_heronian_growth(first, second, third, (n - 1) as nat);
        lemma_heronian_growth(first, second, third, (n - 2) as nat);
        lemma_heronian_growth(first, second, third, (n - 3) as nat);
        let a = heronian(first, second, third, (n - 1) as nat);
        let b = heronian(first, second, third, (n - 2) as nat);
        let c = heronian(first, second, third, (n - 3) as nat);
        assert(15 * a - 15 * b + c >= 13 * a) by (nonlinear_arith)
            requires
                a >= 13 * b,
                b >= 1,
                c >= 1,
        ;
    }
}

/// Values `n - 1` and `n` of a sequence, from its first three.
fn heronian_step(first: u64, second: u64, third: u64, n: u64) -> (r: (u64, u64))
    requires
        first >= 1,
        second >= 13 * first,
        third >= 13 * second,
        2 <= n,
        heronian(first as int, second as int, third as int, (n - 1) as nat) <= 1_000_000_000,
    ensures
        r.0 == heronian(first as int, second as int, third as int, (n - 1) as nat),
        r.1 == heronian(first as int, second as int, third as int, n as nat),
{
    let mut a: u64 = first;
    let mut b: u64 = second;
    let mut c: u64 = third;
    let mut k: u64 = 1;
    if n == 2 {
        return (first, second);
    }
    while k + 2 < n
        invariant
            1 <= k,
            k + 2 <= n,
            a == heronian(first as int, second as int, third as int, k as nat),
            b == heronian(first as int, second as int, third as int, (k + 1) as nat),
            c == heronian(first as int, second as int, third as int, (k + 2) as nat),
            first >= 1,
            second >= 13 * first,
            third >= 13 * second,
            heronian(first as int, second as int, third as int, (n - 1) as nat) <= 1_000_000_000,
        decreases n - k,
    {
        proof {
            lemma_heronian_growth(first as int, second as int, third as int, (k + 2) as nat);
            lemma_heronian_growth(first as int, second as int, third as int, (k + 1) as nat);
            lemma_heronian_mono(first as int, second as int, third as int, (k + 2) as nat, (n - 1) as nat);
        }
        let d = 15 * c - 15 * b + a;
        a = b;
        b = c;
        c = d;
        k = k + 1;
    }
    (b, c)
}

proof fn lemma_heronian_mono(first: int, second: int, third: int, m: nat, n: nat)
    requires
        first >= 1,
        second >= 13 * first,
        third >= 13 * second,
        1 <= m <= n,
    ensures
        heronian(first, second, third, m) <= heronian(first, second, third, n),
    decreases n - m,
{
    if m < n {
        lemma_heronian_mono(first, second, third, m, (n - 1) as nat);
        lemma_heronian_growth(first, second, third, n);
        lemma_heronian_growth(first, second, third, (n - 1) as nat);
    }
}

/// Almost equilateral triangles: the perimeters of the almost equilateral
/// triangles with integral sides and area, taken in order of the sequences,
/// added up while the total stays within one billion.
fn almost_equilateral() -> (p: u64)
    ensures
        exists|j: nat|
            p == #[trigger] perimeter_total(j) && p <= 1_000_000_000 && perimeter_total(j + 1)
                > 1_000_000_000,
{
    let mut p: u64 = 0;
    let mut i: u64 = 1;
    let ghost mut j: nat = 0;
    loop
        invariant
            1 <= i <= p + 1,
            j == 2 * (i - 1),
            p == perimeter_total(j),
            p <= 1_000_000_000,
            short_side(i as nat) >= 1,
            long_side(i as nat) >= 1,
            i >= 2 ==> short_side((i - 1) as nat) <= 1_000_000_000 && long_side((i - 1) as nat)
                <= 1_000_000_000,
        decreases 1_000_000_000 - p,
    {
        proof {
            lemma_heronian_growth(5, 65, 901, i as nat);
            lemma_heronian_growth(16, 240, 3360, i as nat);
        }
        let s = if i == 1 {
            5
        } else {
            heronian_step(5, 65, 901, i).1
        };
        assert(j / 2 + 1 == i && j % 2 == 0);
        assert(perimeter_total(j + 1) == p + 3 * s + 1);
        if s > 400_000_000 || p + 3 * s + 1 > 1_000_000_000 {
            return p;
        }
        p = p + 3 * s + 1;
        proof {
            j = j + 1;
        }
        let l = if i == 1 {
            16
        } else {
            heronian_step(16, 240, 3360, i).1
        };
        assert(j / 2 + 1 == i && j % 2 == 1);
        assert(perimeter_total(j + 1) == p + 3 * l + 2);
        if l > 400_000_000 || p + 3 * l + 2 > 1_000_000_000 {
            return p;
        }
        p = p + 3 * l + 2;
        proof {
            j = j + 1;
            lemma_heronian_growth(5, 65, 901, (i + 1) as nat);
            lemma_heronian_growth(16, 240, 3360, (i + 1) as nat);
        }
        i = i + 1;
    }
}

/// Almost equilateral triangles.
pub fn eu094() -> (r: String)
    ensures
        exists|j: nat|
            r@ == labeled("eu094"@, #[trigger] perimeter_total(j) as nat) && 0 <= perimeter_total(j)
                <= 1_000_000_000 && perimeter_total(j + 1) > 1_000_000_000,
{
    let p = almost_equilateral();
    answer("eu094", p)
}

/// The solutions of this range, in problem order.
pub fn get_functions() -> (fns: Vec<Solver>)
    ensures
        fns@ == seq![Solver::Eu094, Solver::Eu097, Solver::Eu100],
{
    let mut fns: Vec<Solver> = Vec::new();
    fns.push(Solver::Eu094);
    fns.push(Solver::Eu097);
    fns.push(Solver::Eu100);
    assert(fns@ =~= seq![Solver::Eu094, Solver::Eu097, Solver::Eu100]);
    fns
}

} // verus!

//! Solutions to problems 41 through 50.
use vstd::prelude::*;
use crate::solver::Solver;
use vstd::arithmetic::power::pow;
use vstd::arithmetic::div_mod::{lemma_add_mod_noop, lemma_add_mod_noop_right, lemma_mul_mod_noop_left};
use crate::decimal::{answer, labeled};

verus! {


/// `1^1 + 2^2 + ... + (n-1)^(n-1)`.
pub open spec fn self_power_total(n: nat) -> int
    decreases n,
{
    if n <= 1 {
        0
    } else {
        self_power_total((n - 1) as nat) + pow((n - 1) as int, (n - 1) as nat)
    }
}

/// `i^i` modulo ten billion.
fn self_power_mod(i: u64) -> (t: u64)
    requires
        i < 1000,
    ensures
        t == pow(i as int, i as nat) % 10_000_000_000,
{
    let mut term: u64 = 1;
    let mut j: u64 = 0;
    proof {
        reveal(pow);
    }
    while j < i
        invariant
            j <= i < 1000,
            term == pow(i as int, j as nat) % 10_000_000_000,
        decreases i - j,
    {
        proof {
            reveal(pow);
            lemma_mul_mod_noop_left(pow(i as int, j as nat), i as int, 10_000_000_000);
            assert(pow(i as int, (j + 1) as nat) == i * pow(i as int, j as nat));
            assert(term * i <= 10_000_000_000 * 1000) by (nonlinear_arith)
                requires
                    term < 10_000_000_000,
                    i < 1000,
            ;
            assert(pow(i as int, j as nat) * i == i * pow(i as int, j as nat)) by (nonlinear_arith);
        }
        term = (term * i) % 10_000_000_000;
        j = j + 1;
    }
    term
}

/// The last ten digits of `1^1 + 2^2 + ... + 999^999`.
fn self_powers() -> (r: u64)
    ensures
        r == self_power_total(1000) % 10_000_000_000,
{
    let mut res: u64 = 0;
    let mut i: u64 = 1;
    while i < 1000
        invariant
            1 <= i <= 1000,
            res % 10_000_000_000 == self_power_total(i as nat) % 10_000_000_000,
            res <= i * 10_000_000_000,
        decreases 1000 - i,
    {
        let term = self_power_mod(i);
        proof {
            let p = pow(i as int, i as nat);
            lemma_add_mod_noop_right(res as int, p, 10_000_000_000);
            lemma_add_mod_noop(res as int, p, 10_000_000_000);
            lemma_add_mod_noop(self_power_total(i as nat), p, 10_000_000_000);
        }
        res = res + term;
        i = i + 1;
    }
    res % 10_000_000_000
}

/// Self powers.
pub fn p048() -> (r: String)
    ensures
        r@ == labeled("p048"@, (self_power_total(1000) % 10_000_000_000) as nat),
{
    answer("p048", self_powers())
}

/// The solutions of this range, in problem order.
pub fn get_functions() -> (fns: Vec<Solver>)
    ensures
        fns@ == seq![Solver::P048],
{
    let mut fns: Vec<Solver> = Vec::new();
    fns.push(Solver::P048);
    assert(fns@ =~= seq![Solver::P048]);
    fns
}

} // verus!

//! Solutions to problems 31 through 40.
use vstd::prelude::*;
use crate::solver::Solver;
use crate::decimal::{answer, labeled};

verus! {


/// The value in pence of the `k`-th British coin, `1 <= k <= 8`, from 1p to £2.
pub open spec fn coin(k: nat) -> nat {
    if k == 1 {
        1
    } else if k == 2 {
        2
    } else if k == 3 {
        5
    } else if k == 4 {
        10
    } else if k == 5 {
        20
    } else if k == 6 {
        50
    } else if k == 7 {
        100
    } else {
        200
    }
}

/// The ways to make `a` pence from any number of the first `k` coins.
pub open spec fn coin_ways(k: nat, a: nat) -> nat
    decreases k, a,
{
    if k == 0 {
        if a == 0 {
            1
        } else {
            0
        }
    } else {
        coin_ways((k - 1) as nat, a) + if a >= coin(k) && coin(k) > 0 {
            coin_ways(k, (a - coin(k)) as nat)
        } else {
            0
        }
    }
}

/// `b^e`
pub open spec fn power(b: nat, e: nat) -> nat
    decreases e,
{
    if e == 0 {
        1
    } else {
        b * power(b, (e - 1) as nat)
    }
}

pub(crate) proof fn lemma_power_base_mono(x: nat, y: nat, e: nat)
    requires
        x <= y,
    ensures
        power(x, e) <= power(y, e),
    decreases e,
{
    if e > 0 {
        lemma_power_base_mono(x, y, (e - 1) as nat);
        let px = power(x, (e - 1) as nat);
        let py = power(y, (e - 1) as nat);
        assert(x * px <= y * py) by (nonlinear_arith)
            requires
                x <= y,
                px <= py,
        ;
    }
}

pub(crate) proof fn lemma_power_pos(b: nat, e: nat)
    requires
        b >= 1,
    ensures
        power(b, e) >= 1,
    decreases e,
{
    if e > 0 {
        lemma_power_pos(b, (e - 1) as nat);
        let p = power(b, (e - 1) as nat);
        assert(b * p >= 1) by (nonlinear_arith)
            requires
                b >= 1,
                p >= 1,
        ;
    }
}

/// The ways to make `a` from `k` kinds of coin are at most `(a + 1)^k`.
proof fn lemma_coin_ways_bound(k: nat, a: nat)
    requires
        k <= 8,
    ensures
        coin_ways(k, a) <= power(a + 1, k),
    decreases k, a,
{
    if k > 0 {
        lemma_coin_ways_bound((k - 1) as nat, a);
        let q = power(a + 1, (k - 1) as nat);
        assert(power(a + 1, k) == (a + 1) * q);
        assert((a + 1) * q == a * q + q) by (nonlinear_arith);
        if a >= coin(k) {
            let rest = (a - coin(k)) as nat;
            lemma_coin_ways_bound(k, rest);
            lemma_power_base_mono(rest + 1, a, k);
            lemma_power_base_mono(a, a + 1, (k - 1) as nat);
            let pa = power(a, (k - 1) as nat);
            assert(power(a, k) == a * pa);
            assert(a * pa <= a * q) by (nonlinear_arith)
                requires
                    pa <= q,
            ;
        } else {
            lemma_power_pos(a + 1, (k - 1) as nat);
            assert(q <= (a + 1) * q) by (nonlinear_arith)
                requires
                    q >= 1,
            ;
        }
    }
}

fn coin_value(k: usize) -> (v: usize)
    requires
        1 <= k <= 8,
    ensures
        v == coin(k as nat),
{
    if k == 1 {
        1
    } else if k == 2 {
        2
    } else if k == 3 {
        5
    } else if k == 4 {
        10
    } else if k == 5 {
        20
    } else if k == 6 {
        50
    } else if k == 7 {
        100
    } else {
        200
    }
}

/// Coin sums: the ways to make £2 from British coins.
fn coin_sums() -> (r: u64)
    ensures
        r == coin_ways(8, 200),
{
    let mut ws: Vec<u64> = vec![0; 201];
    ws.set(0, 1);
    assert(power(201, 8) == 2664210032449121601) by {
        assert(power(201, 0) == 1);
        assert(power(201, 1) == 201);
        assert(power(201, 2) == 40401);
        assert(power(201, 3) == 8120601);
        assert(power(201, 4) == 1632240801);
        assert(power(201, 5) == 328080401001);
        assert(power(201, 6) == 65944160601201);
        assert(power(201, 7) == 13254776280841401);
    }
    let mut k: usize = 1;
    while k <= 8
        invariant
            1 <= k <= 9,
            ws@.len() == 201,
            power(201, 8) == 2664210032449121601,
            forall|j: int| 0 <= j <= 200 ==> #[trigger] ws@[j] == coin_ways((k - 1) as nat, j as nat),
        decreases 9 - k,
    {
        let v = coin_value(k);
        let mut j: usize = v;
        while j <= 200
            invariant
                1 <= k <= 8,
                v == coin(k as nat),
                v <= j <= 201,
                ws@.len() == 201,
                power(201, 8) == 2664210032449121601,
                forall|i: int| 0 <= i < j ==> #[trigger] ws@[i] == coin_ways(k as nat, i as nat),
                forall|i: int| j <= i <= 200 ==> #[trigger] ws@[i] == coin_ways((k - 1) as nat, i as nat),
            decreases 201 - j,
        {
            proof {
                lemma_coin_ways_bound(k as nat, j as nat);
                lemma_power_base_mono(j as nat + 1, 201, k as nat);
                lemma_power_pos(201, k as nat);
                lemma_power_exp_mono(201, k as nat, 8);
            }
            let x = ws[j] + ws[j - v];
            ws.set(j, x);
            j = j + 1;
        }
        proof {
            assert forall|i: int| 0 <= i <= 200 implies #[trigger] ws@[i] == coin_ways(k as nat, i as nat) by {
                if i < v {
                }
            }
        }
        k = k + 1;
    }
    ws[200]
}

proof fn lemma_power_exp_mono(b: nat, e: nat, f: nat)
    requires
        b >= 1,
        e <= f,
    ensures
        power(b, e) <= power(b, f),
    decreases f - e,
{
    if e < f {
        lemma_power_exp_mono(b, e, (f - 1) as nat);
        lemma_power_pos(b, (f - 1) as nat);
        let p = power(b, (f - 1) as nat);
        assert(p <= b * p) by (nonlinear_arith)
            requires
                b >= 1,
        ;
    }
}

/// Coin sums.
pub fn p031() -> (r: String)
    ensures
        r@ == labeled("p031"@, coin_ways(8, 200)),
{
    answer("p031", coin_sums())
}

/// The `b` with `a < b < bb` that make a right triangle `a, b, q - a - b`.
pub open spec fn triangles_in_row(q: int, a: int, bb: int) -> nat
    decreases bb - a,
{
    if bb <= a + 1 {
        0
    } else {
        triangles_in_row(q, a, bb - 1) + if q - a - (bb - 1) > 0 && a * a + (bb - 1) * (bb - 1)
            == (q - a - (bb - 1)) * (q - a - (bb - 1)) {
            1nat
        } else {
            0
        }
    }
}

/// The right triangles with integral sides `a < b < c`, `3 <= a < aa`,
/// `b < 999`, and perimeter `q`.
pub open spec fn triangles_before(q: int, aa: int) -> nat
    decreases aa,
{
    if aa <= 3 {
        0
    } else {
        triangles_before(q, aa - 1) + triangles_in_row(q, aa - 1, 999)
    }
}

/// Whether `p` is the first perimeter in `3..=1000` with the most right
/// triangles.
pub open spec fn most_right_triangles(p: int) -> bool {
    &&& 3 <= p <= 1000
    &&& forall|q: int| 3 <= q <= 1000 ==> #[trigger] triangles_before(q, 999) <= triangles_before(p, 999)
    &&& forall|q: int| 3 <= q < p ==> #[trigger] triangles_before(q, 999) < triangles_before(p, 999)
}

proof fn lemma_square_root_unique(x: int, c: int, t: int)
    requires
        x > 0,
        c > 0,
        x * x == t,
        c * c >= t,
        (c - 1) * (c - 1) < t,
    ensures
        x == c,
{
    if x > c {
        assert(x * x > c * c) by (nonlinear_arith)
            requires
                x > c,
                c > 0,
        ;
    } else if x < c {
        assert(x * x <= (c - 1) * (c - 1)) by (nonlinear_arith)
            requires
                0 < x < c,
        ;
    }
}

/// Integer right triangles: counts, for each perimeter up to 1000, the right
/// triangles with integral sides, and returns the first perimeter with the most.
fn integer_right_triangles() -> (p: u64)
    ensures
        most_right_triangles(p as int),
{
    let mut ps: Vec<u64> = vec![0; 1001];
    let mut a: u64 = 3;
    assert forall|q: int| 0 <= q <= 1000 implies #[trigger] ps@[q] == triangles_before(q, 3) by {
        assert(ps@[q] == 0);
    }
    while a < 999
        invariant
            3 <= a <= 999,
            ps@.len() == 1001,
            forall|q: int| 0 <= q <= 1000 ==> #[trigger] ps@[q] == triangles_before(q, a as int),
            forall|q: int| 0 <= q <= 1000 ==> #[trigger] ps@[q] <= 999 * a,
        decreases 999 - a,
    {
        let mut c: u64 = a;
        let mut b: u64 = a + 1;
        assert((c - 1) * (c - 1) < a * a + b * b && c * c <= 4 * 999 * 999) by (nonlinear_arith)
            requires
                c == a,
                b == a + 1,
                3 <= a < 999,
        ;
        while b < 999
            invariant
                3 <= a < 999,
                a + 1 <= b <= 999,
                a <= c,
                (c - 1) * (c - 1) < a * a + b * b,
                c * c <= 4 * 999 * 999,
                ps@.len() == 1001,
                forall|q: int|
                    0 <= q <= 1000 ==> #[trigger] ps@[q] == triangles_before(q, a as int)
                        + triangles_in_row(q, a as int, b as int),
                forall|q: int| 0 <= q <= 1000 ==> #[trigger] ps@[q] <= 999 * a + b,
            decreases 999 - b,
        {
            assert(a * a + b * b < 2 * 999 * 999) by (nonlinear_arith)
                requires
                    a < 999,
                    b < 999,
            ;
            let target = a * a + b * b;
            while c * c < target
                invariant
                    (c - 1) * (c - 1) < target,
                    target < 2 * 999 * 999,
                    c * c <= 4 * 999 * 999,
                    3 <= a <= c,
                decreases target - c,
            {
                assert(c * c >= c) by (nonlinear_arith)
                    requires
                        c >= 1,
                ;
                assert((c + 1) * (c + 1) <= 4 * 999 * 999) by (nonlinear_arith)
                    requires
                        c * c < 2 * 999 * 999,
                ;
                c = c + 1;
            }
            assert(c <= 2000) by (nonlinear_arith)
                requires
                    c * c <= 4 * 999 * 999,
            ;
            if c * c == target && a + b + c <= 1000 {
                let q = (a + b + c) as usize;
                let v = ps[q] + 1;
                ps.set(q, v);
            }
            proof {
                assert forall|q: int| 0 <= q <= 1000 implies #[trigger] ps@[q] == triangles_before(
                    q,
                    a as int,
                ) + triangles_in_row(q, a as int, b + 1) by {
                    let x = q - a - b;
                    if x > 0 && a * a + b * b == x * x {
                        lemma_square_root_unique(x, c as int, target as int);
                    }
                }
            }
            assert((b + 1) * (b + 1) == b * b + 2 * b + 1) by (nonlinear_arith);
            b = b + 1;
        }
        a = a + 1;
    }
    let mut max: u64 = 0;
    let mut res: u64 = 3;
    let mut i: u64 = 3;
    while i <= 1000
        invariant
            3 <= i <= 1001,
            3 <= res <= 1000,
            res < i || i == 3,
            ps@.len() == 1001,
            forall|q: int| 0 <= q <= 1000 ==> #[trigger] ps@[q] == triangles_before(q, 999),
            i > 3 ==> max == triangles_before(res as int, 999),
            i == 3 ==> max == 0,
            forall|q: int| 3 <= q < i ==> #[trigger] triangles_before(q, 999) <= max,
            forall|q: int| 3 <= q < res ==> #[trigger] triangles_before(q, 999) < max,
        decreases 1001 - i,
    {
        if ps[i as usize] > max || i == 3 {
            max = ps[i as usize];
            res = i;
        }
        i = i + 1;
    }
    res
}

/// Integer right triangles.
pub fn p039() -> (r: String)
    ensures
        exists|p: nat| r@ == labeled("p039"@, p) && most_right_triangles(p as int),
{
    let p = integer_right_triangles();
    answer("p039", p)
}

/// `n!`
pub open spec fn factorial(n: nat) -> nat
    decreases n,
{
    if n == 0 {
        1
    } else {
        n * factorial((n - 1) as nat)
    }
}

/// The sum of the factorials of the decimal digits of `n`.
pub open spec fn digit_factorial_sum(n: nat) -> nat
    decreases n,
{
    if n == 0 {
        0
    } else {
        factorial(n % 10) + digit_factorial_sum(n / 10)
    }
}

/// The sum of the numbers `x` with `10 <= x < n` that equal the sum of the
/// factorials of their digits.
pub open spec fn digit_factorial_total(n: nat) -> nat
    decreases n,
{
    if n <= 10 {
        0
    } else {
        digit_factorial_total((n - 1) as nat) + if digit_factorial_sum((n - 1) as nat) == n - 1 {
            (n - 1) as nat
        } else {
            0
        }
    }
}

/// The factorial of a digit.
fn digit_factorial(d: u64) -> (f: u64)
    requires
        d < 10,
    ensures
        f == factorial(d as nat),
        f <= 362880,
{
    proof {
        lemma_digit_factorials();
    }
    if d == 0 {
        1
    } else if d == 1 {
        1
    } else if d == 2 {
        2
    } else if d == 3 {
        6
    } else if d == 4 {
        24
    } else if d == 5 {
        120
    } else if d == 6 {
        720
    } else if d == 7 {
        5040
    } else if d == 8 {
        40320
    } else {
        362880
    }
}

proof fn lemma_digit_factorial_sum_bound(n: nat)
    ensures
        digit_factorial_sum(n) <= 362880 * n,
    decreases n,
{
    if n > 0 {
        lemma_digit_factorial_sum_bound(n / 10);
        lemma_factorial_digit_bound(n % 10);
    }
}

proof fn lemma_digit_factorials()
    ensures
        factorial(0) == 1,
        factorial(1) == 1,
        factorial(2) == 2,
        factorial(3) == 6,
        factorial(4) == 24,
        factorial(5) == 120,
        factorial(6) == 720,
        factorial(7) == 5040,
        factorial(8) == 40320,
        factorial(9) == 362880,
{
    assert(factorial(0) == 1);
    assert(factorial(1) == 1);
    assert(factorial(2) == 2);
    assert(factorial(3) == 6);
    assert(factorial(4) == 24);
    assert(factorial(5) == 120);
    assert(factorial(6) == 720);
    assert(factorial(7) == 5040);
    assert(factorial(8) == 40320);
    assert(factorial(9) == 362880);
}

proof fn lemma_factorial_digit_bound(d: nat)
    requires
        d < 10,
    ensures
        factorial(d) <= 362880,
{
    lemma_digit_factorials();
}

/// Whether `n` equals the sum of the factorials of its digits.
fn is_digit_factorial(n: u64) -> (r: bool)
    requires
        n < 10_000_000,
    ensures
        r == (digit_factorial_sum(n as nat) == n),
{
    proof {
        lemma_digit_factorial_sum_bound(n as nat);
    }
    let mut val: u64 = 0;
    let mut t: u64 = n;
    while t != 0
        invariant
            val + digit_factorial_sum(t as nat) == digit_factorial_sum(n as nat),
            digit_factorial_sum(n as nat) <= 362880 * n,
            n < 10_000_000,
        decreases t,
    {
        val = val + digit_factorial(t % 10);
        t = t / 10;
    }
    val == n
}

/// The sum of all numbers of two or more digits that equal the sum of the
/// factorials of their digits, searched up to `5 * 9!`.
fn digit_factorials() -> (s: u64)
    ensures
        s == digit_factorial_total(1814401),
{
    let mut sum: u64 = 0;
    let mut x: u64 = 10;
    while x < 1814401
        invariant
            10 <= x <= 1814401,
            sum == digit_factorial_total(x as nat),
            sum <= x * x,
        decreases 1814401 - x,
    {
        assert((x + 1) * (x + 1) == x * x + 2 * x + 1) by (nonlinear_arith);
        assert(x * x <= 1814401 * 1814401) by (nonlinear_arith)
            requires
                x <= 1814401,
        ;
        if is_digit_factorial(x) {
            sum = sum + x;
        }
        x = x + 1;
    }
    sum
}

/// Digit factorials.
pub fn p034() -> (r: String)
    ensures
        r@ == labeled("p034"@, digit_factorial_total(1814401)),
{
    answer("p034", digit_factorials())
}

/// The solutions of this range, in problem order.
pub fn get_functions() -> (fns: Vec<Solver>)
    ensures
        fns@ == seq![Solver::P031, Solver::P034, Solver::P039],
{
    let mut fns: Vec<Solver> = Vec::new();
    fns.push(Solver::P031);
    fns.push(Solver::P034);
    fns.push(Solver::P039);
    assert(fns@ =~= seq![Solver::P031, Solver::P034, Solver::P039]);
    fns
}

} // verus!

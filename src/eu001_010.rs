//! Solutions to problems 1 through 10.
use vstd::prelude::*;
use crate::solver::Solver;
use crate::decimal::{answer, decimal, labeled, to_decimal};

verus! {

/// The sum of the numbers below `n` that are multiples of 3 or 5.
pub open spec fn multiples_of_3_or_5(n: nat) -> nat
    decreases n,
{
    if n == 0 {
        0
    } else {
        multiples_of_3_or_5((n - 1) as nat) + if (n - 1) % 3 == 0 || (n - 1) % 5 == 0 {
            (n - 1) as nat
        } else {
            0
        }
    }
}

/// Multiples of 3 and 5.
pub fn eu001() -> (r: String)
    ensures
        r@ == labeled("eu001"@, multiples_of_3_or_5(1000)),
{
    let mut sum: u64 = 0;
    let mut x: u64 = 0;
    while x < 1000
        invariant
            x <= 1000,
            sum == multiples_of_3_or_5(x as nat),
            sum <= x * x,
        decreases 1000 - x,
    {
        assert((x + 1) * (x + 1) == x * x + 2 * x + 1) by (nonlinear_arith);
        assert(x * x <= 1000 * 1000) by (nonlinear_arith)
            requires
                x <= 1000,
        ;
        if x % 3 == 0 || x % 5 == 0 {
            sum = sum + x;
        }
        x = x + 1;
    }
    answer("eu001", sum)
}

/// The Fibonacci terms 1, 2, 3, 5, 8, ...
pub open spec fn fib(k: nat) -> nat
    decreases k,
{
    if k == 0 {
        1
    } else if k == 1 {
        2
    } else {
        fib((k - 1) as nat) + fib((k - 2) as nat)
    }
}

/// The even terms among the first `k` Fibonacci terms, added up.
pub open spec fn even_fib_sum(k: nat) -> nat
    decreases k,
{
    if k == 0 {
        0
    } else {
        even_fib_sum((k - 1) as nat) + if fib((k - 1) as nat) % 2 == 0 {
            fib((k - 1) as nat)
        } else {
            0
        }
    }
}

/// The sum of the even Fibonacci terms below `n`: the terms below `n` are the
/// first `k` of them.
fn even_fibonacci(n: u64) -> (s: u64)
    requires
        n <= 1_000_000_000,
    ensures
        exists|k: nat|
            s == even_fib_sum(k) && fib(k) >= n && forall|j: nat| j < k ==> #[trigger] fib(j) < n,
{
    let mut a: u64 = 1;
    let mut b: u64 = 2;
    let mut sum: u64 = 0;
    let ghost mut k: nat = 0;
    while a < n
        invariant
            n <= 1_000_000_000,
            a == fib(k),
            b == fib(k + 1),
            a < b <= 2 * a,
            sum == even_fib_sum(k),
            sum + 2 <= b,
            forall|j: nat| j < k ==> #[trigger] fib(j) < n,
            a <= 2 * n + 1,
        decreases 2 * n + 2 - a,
    {
        if a % 2 == 0 {
            sum = sum + a;
        }
        let c = a + b;
        a = b;
        b = c;
        proof {
            assert(fib(k + 2) == fib(k + 1) + fib(k));
            k = k + 1;
        }
    }
    sum
}

/// Even Fibonacci numbers.
pub fn eu002() -> (r: String)
    ensures
        exists|k: nat|
            r@ == labeled("eu002"@, even_fib_sum(k)) && fib(k) >= 4_000_000 && forall|j: nat|
                j < k ==> #[trigger] fib(j) < 4_000_000,
{
    let s = even_fibonacci(4_000_000);
    answer("eu002", s)
}

/// Whether `n` reads the same in decimal from either end.
pub open spec fn is_palindrome(n: nat) -> bool {
    decimal(n) == decimal(n).reverse()
}

/// Whether `n` is a decimal palindrome.
pub fn palindrome(n: u64) -> (r: bool)
    ensures
        r == is_palindrome(n as nat),
{
    let s = to_decimal(n);
    let t = s.as_str();
    let len = t.unicode_len();
    let mut i: usize = 0;
    while i < len / 2
        invariant
            len == t@.len(),
            t@ == decimal(n as nat),
            i <= len / 2,
            forall|k: int| 0 <= k < i ==> #[trigger] t@[k] == t@[len - 1 - k],
        decreases len / 2 - i,
    {
        if t.get_char(i) != t.get_char(len - 1 - i) {
            assert(decimal(n as nat).reverse()[len - 1 - i] == decimal(n as nat)[i as int]);
            return false;
        }
        i = i + 1;
    }
    assert(decimal(n as nat) =~= decimal(n as nat).reverse()) by {
        assert forall|k: int| 0 <= k < len implies #[trigger] t@[k] == t@[len - 1 - k] by {
            if k >= len / 2 && len - 1 - k < len / 2 {
                assert(t@[len - 1 - k] == t@[len - 1 - (len - 1 - k)]);
            }
        }
    }
    true
}

/// Whether `a * b` is a decimal palindrome.
pub open spec fn palindrome_product(a: nat, b: nat) -> bool {
    is_palindrome(a * b)
}

/// Whether `m` is the largest palindrome that is a product of two factors
/// from 99 to 998 (zero where there is none).
pub open spec fn largest_palindrome_product(m: nat) -> bool {
    &&& forall|a: nat, b: nat|
        99 <= a < 999 && 99 <= b < 999 && #[trigger] palindrome_product(a, b) ==> a * b <= m
    &&& m > 0 ==> exists|a: nat, b: nat|
        99 <= a < 999 && 99 <= b < 999 && #[trigger] palindrome_product(a, b) && a * b == m
}

fn largest_palindrome() -> (m: u64)
    ensures
        largest_palindrome_product(m as nat),
{
    let mut max: u64 = 0;
    let mut i: u64 = 99;
    while i < 999
        invariant
            99 <= i <= 999,
            forall|a: nat, b: nat|
                99 <= a < i && 99 <= b < 999 && #[trigger] palindrome_product(a, b) ==> a * b <= max,
            max > 0 ==> exists|a: nat, b: nat|
                99 <= a < 999 && 99 <= b < 999 && #[trigger] palindrome_product(a, b) && a * b
                    == max,
        decreases 999 - i,
    {
        let mut j: u64 = 99;
        while j < 999
            invariant
                99 <= i < 999,
                99 <= j <= 999,
                forall|a: nat, b: nat|
                    99 <= a < i && 99 <= b < 999 && #[trigger] palindrome_product(a, b) ==> a * b
                        <= max,
                forall|b: nat| 99 <= b < j && #[trigger] palindrome_product(i as nat, b) ==> i * b <= max,
                max > 0 ==> exists|a: nat, b: nat|
                    99 <= a < 999 && 99 <= b < 999 && #[trigger] palindrome_product(a, b) && a * b
                        == max,
            decreases 999 - j,
        {
            assert(i * j <= 999 * 999) by (nonlinear_arith)
                requires
                    i < 999,
                    j < 999,
            ;
            let t = i * j;
            if t > max && palindrome(t) {
                assert(palindrome_product(i as nat, j as nat));
                max = t;
            }
            j = j + 1;
        }
        i = i + 1;
    }
    max
}

/// Largest palindrome product.
pub fn eu004() -> (r: String)
    ensures
        exists|m: nat| r@ == labeled("eu004"@, m) && largest_palindrome_product(m),
{
    let m = largest_palindrome();
    answer("eu004", m)
}

/// Whether `i` is divisible by each of 11 through 19; for a multiple of 2520
/// that makes it divisible by each of 1 through 20.
pub open spec fn divisible_11_to_19(i: nat) -> bool {
    i % 11 == 0 && i % 12 == 0 && i % 13 == 0 && i % 14 == 0 && i % 15 == 0 && i % 16 == 0 && i
        % 17 == 0 && i % 18 == 0 && i % 19 == 0
}

/// Smallest multiple: the least `k >= 1` with `2520 k` divisible by 11 through 19.
fn smallest_multiple() -> (r: u64)
    ensures
        r % 2520 == 0,
        r >= 2520,
        divisible_11_to_19(r as nat),
        forall|j: nat| 1 <= j < r / 2520 ==> !divisible_11_to_19(#[trigger] (2520 * j)),
{
    assert(divisible_11_to_19(232792560));
    assert(2520 * 92378 == 232792560);
    let mut k: u64 = 1;
    let mut i: u64 = 2520;
    loop
        invariant
            1 <= k <= 92378,
            i == 2520 * k,
            forall|j: nat| 1 <= j < k ==> !divisible_11_to_19(#[trigger] (2520 * j)),
        decreases 92378 - k,
    {
        if i % 19 + i % 18 + i % 17 + i % 16 + i % 15 + i % 14 + i % 13 + i % 12 + i % 11 == 0 {
            assert(i / 2520 == k);
            return i;
        }
        assert(k != 92378);
        k = k + 1;
        i = i + 2520;
    }
}

/// Smallest multiple.
pub fn eu005() -> (r: String)
    ensures
        exists|k: nat|
            #![trigger labeled("eu005"@, 2520 * k)]
            r@ == labeled("eu005"@, 2520 * k) && k >= 1 && divisible_11_to_19(2520 * k) && forall|
                j: nat,
            | 1 <= j < k ==> !divisible_11_to_19(#[trigger] (2520 * j)),
{
    let r = smallest_multiple();
    let ghost k = (r / 2520) as nat;
    assert(r == 2520 * k);
    let t = answer("eu005", r);
    assert(t@ == labeled("eu005"@, 2520 * k));
    t
}

/// Sum square difference: `(1 + ... + n)^2 - (1^2 + ... + n^2)` for `n = 100`.
fn sum_square_difference() -> (r: u64)
    ensures
        r == 25164150,
{
    let mut sum: u64 = 0;
    let mut squares: u64 = 0;
    let mut k: u64 = 0;
    while k < 100
        invariant
            k <= 100,
            2 * sum == k * (k + 1),
            6 * squares == k * (k + 1) * (2 * k + 1),
        decreases 100 - k,
    {
        proof {
            let k1 = k + 1;
            assert(2 * (sum + k1) == k1 * (k1 + 1) && 6 * (squares + k1 * k1) == k1 * (k1 + 1) * (2
                * k1 + 1) && k1 * k1 <= 10000 && k1 * (k1 + 1) <= 10100 && k1 * (k1 + 1) * (2 * k1
                + 1) <= 2030100) by (nonlinear_arith)
                requires
                    2 * sum == k * (k + 1),
                    6 * squares == k * (k + 1) * (2 * k + 1),
                    k1 == k + 1,
                    k1 <= 100,
            ;
        }
        sum = sum + (k + 1);
        squares = squares + (k + 1) * (k + 1);
        k = k + 1;
    }
    assert(sum == 5050 && squares == 338350) by (nonlinear_arith)
        requires
            k == 100,
            2 * sum == k * (k + 1),
            6 * squares == k * (k + 1) * (2 * k + 1),
    ;
    sum * sum - squares
}

/// Sum square difference.
pub fn eu006() -> (r: String)
    ensures
        r@ == labeled("eu006"@, 25164150),
{
    answer("eu006", sum_square_difference())
}

/// Whether `(a, b, c)` is a Pythagorean triple with `a <= b` and `a + b + c = 1000`.
pub open spec fn triple_of_thousand(a: nat, b: nat, c: nat) -> bool {
    1 <= a <= b && a + b + c == 1000 && a * a + b * b == c * c
}

/// Special Pythagorean triplet: the product `a b c` of a triple with
/// `a + b + c = 1000`, searched with `a <= b < 500`; zero where there is none.
fn special_triplet() -> (r: u64)
    ensures
        r != 0 ==> exists|a: nat, b: nat, c: nat|
            #[trigger] triple_of_thousand(a, b, c) && r == a * b * c,
        r == 0 ==> forall|a: nat, b: nat, c: nat|
            #[trigger] triple_of_thousand(a, b, c) && b < 500 ==> false,
{
    let mut a: u64 = 1;
    while a < 500
        invariant
            1 <= a <= 500,
            forall|x: nat, y: nat, z: nat|
                #[trigger] triple_of_thousand(x, y, z) && y < 500 ==> x >= a,
        decreases 500 - a,
    {
        let mut b: u64 = a;
        while b < 500
            invariant
                1 <= a < 500,
                a <= b <= 500,
                forall|x: nat, y: nat, z: nat|
                    #[trigger] triple_of_thousand(x, y, z) && y < 500 ==> x >= a,
                forall|y: nat, z: nat|
                    #[trigger] triple_of_thousand(a as nat, y, z) && y < 500 ==> y >= b,
            decreases 500 - b,
        {
            let c: u64 = 1000 - a - b;
            assert(a * a <= 250000 && b * b <= 250000 && c * c <= 1000000 && a * b <= 250000)
                by (nonlinear_arith)
                requires
                    a < 500,
                    b < 500,
                    c <= 1000,
            ;
            assert(a * b * c <= 250000000) by (nonlinear_arith)
                requires
                    a * b <= 250000,
                    c <= 1000,
            ;
            if a * a + b * b == c * c {
                assert(triple_of_thousand(a as nat, b as nat, c as nat));
                assert(a * b * c > 0) by (nonlinear_arith)
                    requires
                        a >= 1,
                        b >= 1,
                        c >= 1,
                ;
                return a * b * c;
            }
            b = b + 1;
        }
        a = a + 1;
    }
    0
}

/// Special Pythagorean triplet.
pub fn eu009() -> (r: String)
    ensures
        exists|m: nat|
            r@ == labeled("eu009"@, m) && ((m != 0 && exists|a: nat, b: nat, c: nat|
                #[trigger] triple_of_thousand(a, b, c) && m == a * b * c) || (m == 0 && forall|
                a: nat,
                b: nat,
                c: nat,
            | #[trigger] triple_of_thousand(a, b, c) && b < 500 ==> false)),
{
    let m = special_triplet();
    answer("eu009", m)
}

/// The solutions of this range, in problem order.
pub fn get_functions() -> (fns: Vec<Solver>)
    ensures
        fns@ == seq![Solver::Eu001, Solver::Eu002, Solver::Eu004, Solver::Eu005, Solver::Eu006, Solver::Eu009],
{
    let mut fns: Vec<Solver> = Vec::new();
    fns.push(Solver::Eu001);
    fns.push(Solver::Eu002);
    fns.push(Solver::Eu004);
    fns.push(Solver::Eu005);
    fns.push(Solver::Eu006);
    fns.push(Solver::Eu009);
    assert(fns@ =~= seq![Solver::Eu001, Solver::Eu002, Solver::Eu004, Solver::Eu005, Solver::Eu006, Solver::Eu009]);
    fns
}

} // verus!

//! Solutions to problems 111 through 120.
use vstd::prelude::*;
use crate::solver::Solver;
use vstd::arithmetic::power2::{pow2, lemma_pow2_unfold, lemma_pow2_strictly_increases, lemma2_to64_rest};
use crate::decimal::{answer, answer_wide, labeled};
use crate::eu011_020::binomial;
use crate::euler_p031_040::{power, lemma_power_base_mono, lemma_power_pos};

verus! {

/// The ways to fill a row of `n` units with grey unit squares and any number
/// of tiles of length `m`.
pub open spec fn tile_ways(n: nat, m: nat) -> nat
    decreases n,
{
    if n == 0 {
        1
    } else {
        tile_ways((n - 1) as nat, m) + if n >= m && m > 0 {
            tile_ways((n - m) as nat, m)
        } else {
            0
        }
    }
}

proof fn lemma_pow2_le(a: nat, b: nat)
    requires
        a <= b,
    ensures
        pow2(a) <= pow2(b),
{
    if a < b {
        lemma_pow2_strictly_increases(a, b);
    }
}

proof fn lemma_tile_ways_bound(n: nat, m: nat)
    requires
        m >= 1,
    ensures
        1 <= tile_ways(n, m) <= pow2(n),
    decreases n,
{
    if n > 0 {
        lemma_pow2_unfold(n);
        lemma_tile_ways_bound((n - 1) as nat, m);
        if n >= m {
            lemma_tile_ways_bound((n - m) as nat, m);
            lemma_pow2_le((n - m) as nat, (n - 1) as nat);
        }
    } else {
        assert(pow2(0) == 1) by {
            vstd::arithmetic::power2::lemma2_to64();
        }
    }
}

/// `tile_ways(n, m)`, computed row length by row length.
fn single_colour_ways(n: usize, m: usize) -> (r: u64)
    requires
        n <= 50,
        m >= 1,
    ensures
        r == tile_ways(n as nat, m as nat),
{
    proof {
        lemma2_to64_rest();
    }
    let mut xs: Vec<u64> = Vec::new();
    xs.push(1);
    let mut i: usize = 1;
    while i <= n
        invariant
            1 <= i <= n + 1,
            n <= 50,
            m >= 1,
            pow2(50) == 0x4000000000000,
            xs@.len() == i,
            forall|j: int| 0 <= j < i ==> #[trigger] xs@[j] == tile_ways(j as nat, m as nat),
        decreases n + 1 - i,
    {
        proof {
            lemma_tile_ways_bound(i as nat, m as nat);
            lemma_pow2_le(i as nat, 50);
        }
        let mut v = xs[i - 1];
        if i >= m {
            v = v + xs[i - m];
        }
        xs.push(v);
        i = i + 1;
    }
    xs[n]
}

/// The ways to replace grey squares in a row of fifty with tiles of one colour,
/// at least one tile, summed over red (length 2), green (3) and blue (4) tiles.
pub open spec fn one_colour_replacements() -> nat {
    ((tile_ways(50, 4) - 1) + (tile_ways(50, 3) - 1) + (tile_ways(50, 2) - 1)) as nat
}

pub(crate) fn red_green_or_blue() -> (r: u64)
    ensures
        r == one_colour_replacements(),
{
    proof {
        lemma2_to64_rest();
        lemma_tile_ways_bound(50, 2);
        lemma_tile_ways_bound(50, 3);
        lemma_tile_ways_bound(50, 4);
    }
    (single_colour_ways(50, 4) - 1) + (single_colour_ways(50, 3) - 1) + (single_colour_ways(50, 2)
        - 1)
}

/// Red, green or blue tiles.
pub fn eu116() -> (r: String)
    ensures
        r@ == labeled("eu116"@, one_colour_replacements()),
{
    answer("eu116", red_green_or_blue())
}

/// The ways to fill a row of `n` units with grey squares (length 1) and red,
/// green and blue tiles (lengths 2, 3 and 4) mixed freely.
pub open spec fn mixed_tile_ways(n: nat) -> nat
    decreases n,
{
    if n == 0 {
        1
    } else {
        mixed_tile_ways((n - 1) as nat) + (if n >= 2 {
            mixed_tile_ways((n - 2) as nat)
        } else {
            0
        }) + (if n >= 3 {
            mixed_tile_ways((n - 3) as nat)
        } else {
            0
        }) + (if n >= 4 {
            mixed_tile_ways((n - 4) as nat)
        } else {
            0
        })
    }
}

proof fn lemma_mixed_tile_ways_bound(n: nat)
    ensures
        mixed_tile_ways(n) <= pow2(n),
    decreases n,
{
    if n == 0 {
        vstd::arithmetic::power2::lemma2_to64();
    } else {
        lemma_pow2_unfold(n);
        lemma_mixed_tile_ways_bound((n - 1) as nat);
        if n >= 2 {
            lemma_pow2_unfold((n - 1) as nat);
            lemma_mixed_tile_ways_bound((n - 2) as nat);
        }
        if n >= 3 {
            lemma_pow2_unfold((n - 2) as nat);
            lemma_mixed_tile_ways_bound((n - 3) as nat);
        }
        if n >= 4 {
            lemma_pow2_unfold((n - 3) as nat);
            lemma_mixed_tile_ways_bound((n - 4) as nat);
        }
    }
}

/// `mixed_tile_ways(n)`: each entry adds up the (at most four) entries before it.
pub(crate) fn mixed_ways(n: usize) -> (r: u64)
    requires
        n <= 50,
    ensures
        r == mixed_tile_ways(n as nat),
{
    proof {
        lemma2_to64_rest();
    }
    let mut xs: Vec<u64> = Vec::new();
    xs.push(1);
    let mut i: usize = 1;
    while i <= n
        invariant
            1 <= i <= n + 1,
            n <= 50,
            pow2(50) == 0x4000000000000,
            xs@.len() == i,
            forall|j: int| 0 <= j < i ==> #[trigger] xs@[j] == mixed_tile_ways(j as nat),
        decreases n + 1 - i,
    {
        proof {
            lemma_mixed_tile_ways_bound(i as nat);
            lemma_pow2_le(i as nat, 50);
            lemma_mixed_tile_ways_bound((i - 1) as nat);
            lemma_pow2_le((i - 1) as nat, 50);
        }
        let start: usize = if i >= 4 {
            i - 4
        } else {
            0
        };
        let mut v: u64 = 0;
        let mut j: usize = start;
        while j < i
            invariant
                start <= j <= i,
                start == if i >= 4 {
                    i - 4
                } else {
                    0
                },
                xs@.len() == i,
                1 <= i <= 50,
                forall|k: int| 0 <= k < i ==> #[trigger] xs@[k] == mixed_tile_ways(k as nat),
                mixed_tile_ways(i as nat) <= 0x4000000000000,
                v + (if j <= i - 1 {
                    mixed_tile_ways((i - 1) as nat)
                } else {
                    0
                }) + (if j <= i - 2 && i >= 2 {
                    mixed_tile_ways((i - 2) as nat)
                } else {
                    0
                }) + (if j <= i - 3 && i >= 3 {
                    mixed_tile_ways((i - 3) as nat)
                } else {
                    0
                }) + (if j <= i - 4 && i >= 4 {
                    mixed_tile_ways((i - 4) as nat)
                } else {
                    0
                }) == mixed_tile_ways(i as nat),
            decreases i - j,
        {
            v = v + xs[j];
            j = j + 1;
        }
        xs.push(v);
        i = i + 1;
    }
    xs[n]
}

/// Red, green, and blue tiles.
pub fn eu117() -> (r: String)
    ensures
        r@ == labeled("eu117"@, mixed_tile_ways(50)),
{
    answer("eu117", mixed_ways(50))
}

/// The largest remainder of `(a - 1)^n + (a + 1)^n` divided by `a^2`, over all
/// `n`: `2 a floor((a - 1) / 2)`.
pub open spec fn max_square_remainder(a: nat) -> nat {
    2 * a * ((a - 1) as nat / 2)
}

/// The largest remainders added up for `3 <= a < n`.
pub open spec fn square_remainder_total(n: nat) -> nat
    decreases n,
{
    if n <= 3 {
        0
    } else {
        square_remainder_total((n - 1) as nat) + max_square_remainder((n - 1) as nat)
    }
}

pub(crate) fn square_remainders() -> (r: u64)
    ensures
        r == square_remainder_total(1001),
{
    let mut sum: u64 = 0;
    let mut a: u64 = 3;
    while a < 1001
        invariant
            3 <= a <= 1001,
            sum == square_remainder_total(a as nat),
            sum <= a * a * a,
        decreases 1001 - a,
    {
        assert(a * a * a <= 1001 * 1001 * 1001) by (nonlinear_arith)
            requires
                a <= 1001,
        ;
        assert(a * a * a + a * a <= (a + 1) * (a + 1) * (a + 1)) by (nonlinear_arith);
        assert(a * a <= 1001 * 1001) by (nonlinear_arith)
            requires
                a <= 1001,
        ;
        assert((a + 1) * (a + 1) * (a + 1) <= 1002 * 1002 * 1002) by (nonlinear_arith)
            requires
                a <= 1001,
        ;
        let h: u64 = (a - 1) / 2;
        assert(2 * a * h <= a * a) by (nonlinear_arith)
            requires
                2 * h <= a,
        ;
        let v: u64 = 2 * a * h;
        sum = sum + v;
        a = a + 1;
    }
    sum
}

/// Square remainders.
pub fn eu120() -> (r: String)
    ensures
        r@ == labeled("eu120"@, square_remainder_total(1001)),
{
    answer("eu120", square_remainders())
}

/// The ways to place red blocks of length at least `m` in a row of `i` units,
/// any two blocks separated by at least one grey square.
pub open spec fn block_ways(i: nat, m: nat) -> nat
    decreases i, 1nat,
{
    if i == 0 {
        1
    } else {
        block_ways((i - 1) as nat, m) + if i >= m {
            block_prefix((i - m) as nat, m) + 1
        } else {
            0
        }
    }
}

/// `block_ways(j, m)` added up for `j < k`.
pub open spec fn block_prefix(k: nat, m: nat) -> nat
    decreases k, 0nat,
{
    if k == 0 {
        0
    } else {
        block_prefix((k - 1) as nat, m) + block_ways((k - 1) as nat, m)
    }
}

proof fn lemma_block_ways_bound(i: nat, m: nat)
    requires
        m >= 1,
    ensures
        1 <= block_ways(i, m) <= pow2(i),
        block_prefix(i, m) + 1 <= pow2(i),
    decreases i,
{
    if i == 0 {
        vstd::arithmetic::power2::lemma2_to64();
    } else {
        lemma_pow2_unfold(i);
        lemma_block_ways_bound((i - 1) as nat, m);
        if i >= m {
            lemma_block_ways_bound((i - m) as nat, m);
            lemma_pow2_le((i - m) as nat, (i - 1) as nat);
        }
    }
}

proof fn lemma_block_ways_grow(i: nat, m: nat)
    requires
        m >= 1,
        i >= m,
    ensures
        block_ways(i, m) >= i - m + 1,
    decreases i,
{
    lemma_block_ways_bound((i - 1) as nat, m);
    if i > m {
        lemma_block_ways_grow((i - 1) as nat, m);
    }
}

/// Extends `ways`, which holds `block_ways(j, m)` for every `j < i`, by
/// `block_ways(i, m)`, and returns it.
fn next_block_ways(m: usize, i: usize, ways: &mut Vec<u64>, bound: Ghost<nat>) -> (r: u64)
    requires
        1 <= m,
        1 <= i,
        old(ways)@.len() == i,
        forall|j: int| 0 <= j < i ==> #[trigger] old(ways)@[j] == block_ways(j as nat, m as nat),
        block_ways(i as nat, m as nat) <= bound@,
        block_prefix(i as nat, m as nat) <= bound@,
        bound@ <= u64::MAX,
    ensures
        r == block_ways(i as nat, m as nat),
        final(ways)@ == old(ways)@.push(r),
{
    let mut sum: u64 = ways[i - 1];
    if i >= m {
        let idx: usize = i - m;
        let mut j: usize = 0;
        proof {
            lemma_block_prefix_mono(idx as nat, i as nat, m as nat);
        }
        while j < idx
            invariant
                j <= idx,
                idx == i - m,
                i >= m >= 1,
                ways@.len() == i,
                forall|k: int| 0 <= k < i ==> #[trigger] ways@[k] == block_ways(k as nat, m as nat),
                sum == block_ways((i - 1) as nat, m as nat) + block_prefix(j as nat, m as nat),
                block_ways(i as nat, m as nat) <= bound@,
                bound@ <= u64::MAX,
            decreases idx - j,
        {
            proof {
                lemma_block_prefix_mono((j + 1) as nat, idx as nat, m as nat);
            }
            sum = sum + ways[j];
            j = j + 1;
        }
        sum = sum + 1;
    }
    ways.push(sum);
    sum
}

proof fn lemma_block_prefix_mono(a: nat, b: nat, m: nat)
    requires
        a <= b,
    ensures
        block_prefix(a, m) <= block_prefix(b, m),
    decreases b - a,
{
    if a < b {
        lemma_block_prefix_mono(a, (b - 1) as nat, m);
    }
}

/// `block_ways(n, m)`.
pub(crate) fn count_blocks(n: usize, m: usize) -> (r: u64)
    requires
        n <= 50,
        m >= 1,
    ensures
        r == block_ways(n as nat, m as nat),
{
    proof {
        lemma2_to64_rest();
    }
    let mut ways: Vec<u64> = Vec::new();
    ways.push(1);
    let mut i: usize = 1;
    while i <= n
        invariant
            1 <= i <= n + 1,
            n <= 50,
            m >= 1,
            pow2(50) == 0x4000000000000,
            ways@.len() == i,
            forall|j: int| 0 <= j < i ==> #[trigger] ways@[j] == block_ways(j as nat, m as nat),
        decreases n + 1 - i,
    {
        proof {
            lemma_block_ways_bound(i as nat, m as nat);
            lemma_pow2_le(i as nat, 50);
        }
        next_block_ways(m, i, &mut ways, Ghost(0x4000000000000nat));
        i = i + 1;
    }
    ways[n]
}

/// Counting block combinations I.
pub fn eu114() -> (r: String)
    ensures
        r@ == labeled("eu114"@, block_ways(50, 3)),
{
    answer("eu114", count_blocks(50, 3))
}

/// The least row length `n >= 1` whose count of block placements, with
/// blocks of length at least `m`, exceeds `max`.
pub(crate) fn least_exceeding(m: usize, max: u64) -> (n: usize)
    requires
        1 <= m <= 1_000_000,
        1 <= max <= 1_000_000,
    ensures
        n >= 1,
        block_ways(n as nat, m as nat) > max,
        forall|j: nat| 1 <= j < n ==> #[trigger] block_ways(j, m as nat) <= max,
{
    let mut ways: Vec<u64> = Vec::new();
    ways.push(1);
    let mut i: usize = 1;
    loop
        invariant
            1 <= i <= m + max,
            1 <= m <= 1_000_000,
            1 <= max <= 1_000_000,
            ways@.len() == i,
            forall|j: int| 0 <= j < i ==> #[trigger] ways@[j] == block_ways(j as nat, m as nat),
            forall|j: nat| 1 <= j < i ==> #[trigger] block_ways(j, m as nat) <= max,
        decreases m + max - i,
    {
        proof {
            lemma_prefix_bound(i as nat, m as nat, max as nat);
            lemma_block_ways_bound((i - 1) as nat, m as nat);
            if i >= m {
                lemma_block_prefix_mono((i - m) as nat, i as nat, m as nat);
            }
            assert(i * max <= 2_000_000 * 1_000_000) by (nonlinear_arith)
                requires
                    i <= m + max,
                    m <= 1_000_000,
                    max <= 1_000_000,
            ;
            assert((i - 1) * max <= i * max) by (nonlinear_arith)
                requires
                    i >= 1,
            ;
            if i as nat == m + max {
                lemma_block_ways_grow(i as nat, m as nat);
            }
        }
        let w = next_block_ways(m, i, &mut ways, Ghost(4_000_000_000_000nat));
        if w > max {
            return i;
        }
        i = i + 1;
    }
}

proof fn lemma_prefix_bound(i: nat, m: nat, max: nat)
    requires
        i >= 1,
        m >= 1,
        forall|j: nat| 1 <= j < i ==> #[trigger] block_ways(j, m) <= max,
    ensures
        block_prefix(i, m) <= 1 + (i - 1) * max,
    decreases i,
{
    if i > 1 {
        lemma_prefix_bound((i - 1) as nat, m, max);
        assert(block_ways((i - 1) as nat, m) <= max);
        assert(1 + (i - 2) * max + max == 1 + (i - 1) * max) by (nonlinear_arith)
            requires
                i >= 2,
        ;
    } else {
        assert(block_prefix(1, m) == block_prefix(0, m) + block_ways(0, m));
    }
}

/// Counting block combinations II.
pub fn eu115() -> (r: String)
    ensures
        exists|n: nat|
            r@ == labeled("eu115"@, n) && n >= 1 && block_ways(n, 50) > 1_000_000 && forall|j: nat|
                1 <= j < n ==> #[trigger] block_ways(j, 50) <= 1_000_000,
{
    let n = least_exceeding(50, 1_000_000);
    answer("eu115", n as u64)
}

/// Whether no digit of `n` is greater than the digit to its right.
pub open spec fn digits_rise(n: nat) -> bool
    decreases n,
{
    n < 10 || ((n / 10) % 10 <= n % 10 && digits_rise(n / 10))
}

/// Whether no digit of `n` is less than the digit to its right.
pub open spec fn digits_fall(n: nat) -> bool
    decreases n,
{
    n < 10 || ((n / 10) % 10 >= n % 10 && digits_fall(n / 10))
}

/// A number whose digits neither rise nor fall throughout.
pub open spec fn is_bouncy(n: nat) -> bool {
    !digits_rise(n) && !digits_fall(n)
}

/// The bouncy numbers among `1..=n`.
pub open spec fn bouncy_count(n: nat) -> nat
    decreases n,
{
    if n == 0 {
        0
    } else {
        bouncy_count((n - 1) as nat) + if is_bouncy(n) {
            1nat
        } else {
            0
        }
    }
}

proof fn lemma_bouncy_count_bound(n: nat)
    ensures
        bouncy_count(n) <= n,
    decreases n,
{
    if n > 0 {
        lemma_bouncy_count_bound((n - 1) as nat);
    }
}

/// Whether `n` is bouncy, read from its last digit leftwards.
fn bouncy(n: u64) -> (r: bool)
    ensures
        r == is_bouncy(n as nat),
{
    let mut rising = true;
    let mut falling = true;
    let mut t: u64 = n;
    while t >= 10
        invariant
            digits_rise(n as nat) == (rising && digits_rise(t as nat)),
            digits_fall(n as nat) == (falling && digits_fall(t as nat)),
        decreases t,
    {
        let last = t % 10;
        let next = (t / 10) % 10;
        if next > last {
            rising = false;
        }
        if next < last {
            falling = false;
        }
        t = t / 10;
    }
    !rising && !falling
}

/// The least `n >= 1` at which exactly `percent` percent of `1..=n` are
/// bouncy; zero where there is none below `u64::MAX / 100`.
pub(crate) fn least_bouncy_proportion(percent: u64) -> (n: u64)
    requires
        percent <= 100,
    ensures
        n != 0 ==> 100 * bouncy_count(n as nat) == percent * n && forall|j: nat|
            1 <= j < n ==> 100 * #[trigger] bouncy_count(j) != percent * j,
        n == 0 ==> forall|j: nat|
            1 <= j < u64::MAX / 100 ==> 100 * #[trigger] bouncy_count(j) != percent * j,
{
    let mut cnt: u64 = 0;
    let mut i: u64 = 1;
    while i < u64::MAX / 100
        invariant
            1 <= i <= u64::MAX / 100,
            percent <= 100,
            cnt == bouncy_count((i - 1) as nat),
            forall|j: nat| 1 <= j < i ==> 100 * #[trigger] bouncy_count(j) != percent * j,
        decreases u64::MAX / 100 - i,
    {
        proof {
            lemma_bouncy_count_bound(i as nat);
        }
        if bouncy(i) {
            cnt = cnt + 1;
        }
        assert(percent * i <= 100 * i) by (nonlinear_arith)
            requires
                percent <= 100,
        ;
        if 100 * cnt == percent * i {
            return i;
        }
        i = i + 1;
    }
    0
}

/// Bouncy numbers: where ninety-nine percent of the numbers up to it are bouncy.
pub fn eu112() -> (r: String)
    ensures
        exists|n: nat|
            r@ == labeled("eu112"@, n) && ((n != 0 && 100 * bouncy_count(n) == 99 * n && forall|
                j: nat,
            |
                1 <= j < n ==> 100 * #[trigger] bouncy_count(j) != 99 * j) || (n == 0 && forall|
                j: nat,
            | 1 <= j < u64::MAX / 100 ==> 100 * #[trigger] bouncy_count(j) != 99 * j)),
{
    let n = least_bouncy_proportion(99);
    answer("eu112", n)
}

proof fn lemma_binomial_one(n: nat)
    ensures
        binomial(n, 1) == n,
    decreases n,
{
    if n > 0 {
        lemma_binomial_one((n - 1) as nat);
        assert(binomial((n - 1) as nat, 0) == 1);
        assert(binomial(n, 1) == binomial((n - 1) as nat, 0) + binomial((n - 1) as nat, 1));
    }
}

proof fn lemma_binomial_two(n: nat)
    ensures
        2 * binomial(n, 2) == n * (n - 1),
    decreases n,
{
    if n > 0 {
        lemma_binomial_two((n - 1) as nat);
        lemma_binomial_one((n - 1) as nat);
        assert(binomial(n, 2) == binomial((n - 1) as nat, 1) + binomial((n - 1) as nat, 2));
        let m = (n - 1) as nat;
        assert(2 * m + m * (m - 1) == n * (n - 1)) by (nonlinear_arith)
            requires
                m == n - 1,
        ;
        assert(binomial(m, 1) == m);
        assert(2 * binomial(m, 2) == m * (m - 1));
        assert(2 * binomial(n, 2) == 2 * m + m * (m - 1));
    } else {
        assert(n * (n - 1) == 0) by (nonlinear_arith)
            requires
                n == 0,
        ;
    }
}

/// Dropping one from both `n` and `k` does not make `n choose k` larger.
proof fn lemma_binomial_lower(n: nat, k: nat)
    requires
        2 <= k <= n,
    ensures
        binomial(n, k) >= binomial((n - k + 2) as nat, 2),
    decreases k,
{
    if k > 2 {
        lemma_binomial_lower((n - 1) as nat, (k - 1) as nat);
    }
}

/// `n choose k` is at most `n^k`.
proof fn lemma_binomial_power_bound(n: nat, k: nat)
    ensures
        binomial(n, k) <= power(n, k),
    decreases n,
{
    if k > 0 && n > 0 {
        lemma_binomial_power_bound((n - 1) as nat, (k - 1) as nat);
        lemma_binomial_power_bound((n - 1) as nat, k);
        let q = power((n - 1) as nat, (k - 1) as nat);
        assert(power((n - 1) as nat, k) == (n - 1) * q);
        lemma_power_base_mono((n - 1) as nat, n, (k - 1) as nat);
        let p = power(n, (k - 1) as nat);
        assert(q + (n - 1) * q <= n * p) by (nonlinear_arith)
            requires
                q <= p,
                n >= 1,
        ;
    } else if k == 0 {
    } else {
        assert(binomial(0, k) == 0);
    }
}

proof fn lemma_power_110()
    ensures
        power(110, 10) == 259374246010000000000,
{
    assert(power(110, 0) == 1);
    assert(power(110, 1) == 110);
    assert(power(110, 2) == 12100);
    assert(power(110, 3) == 1331000);
    assert(power(110, 4) == 146410000);
    assert(power(110, 5) == 16105100000);
    assert(power(110, 6) == 1771561000000);
    assert(power(110, 7) == 194871710000000);
    assert(power(110, 8) == 21435888100000000);
    assert(power(110, 9) == 2357947691000000000);
}

/// `n choose k` for every `k <= 10`, at `n = 109` and `n = 110`: Pascal's
/// triangle kept to its first eleven columns.
fn binomials_up_to_ten() -> (r: (u128, u128))
    ensures
        r.0 == binomial(109, 9),
        r.1 == binomial(110, 10),
{
    let mut row: Vec<u128> = vec![0; 11];
    row.set(0, 1);
    let mut at_109: u128 = 0;
    proof {
        lemma_power_110();
    }
    let mut n: usize = 0;
    while n < 110
        invariant
            n <= 110,
            row@.len() == 11,
            power(110, 10) == 259374246010000000000,
            forall|k: int| 0 <= k <= 10 ==> #[trigger] row@[k] == binomial(n as nat, k as nat),
            n > 109 ==> at_109 == binomial(109, 9),
        decreases 110 - n,
    {
        if n == 109 {
            at_109 = row[9];
        }
        let mut k: usize = 10;
        while k > 0
            invariant
                0 <= k <= 10,
                n < 110,
                row@.len() == 11,
                power(110, 10) == 259374246010000000000,
                forall|j: int| 0 <= j <= k ==> #[trigger] row@[j] == binomial(n as nat, j as nat),
                forall|j: int|
                    k < j <= 10 ==> #[trigger] row@[j] == binomial((n + 1) as nat, j as nat),
            decreases k,
        {
            proof {
                lemma_binomial_power_bound((n + 1) as nat, k as nat);
                lemma_power_base_mono((n + 1) as nat, 110, k as nat);
                lemma_power_exp_mono_110(k as nat);
            }
            let v = row[k] + row[k - 1];
            row.set(k, v);
            k = k - 1;
        }
        n = n + 1;
    }
    (at_109, row[10])
}

proof fn lemma_power_exp_mono_110(k: nat)
    requires
        k <= 10,
    ensures
        power(110, k) <= power(110, 10),
    decreases 10 - k,
{
    if k < 10 {
        lemma_power_exp_mono_110(k + 1);
        lemma_power_pos(110, k);
        assert(power(110, k + 1) == 110 * power(110, k));
    }
}

/// Non-bouncy numbers: the numbers below a googol that are not bouncy number
/// `C(109, 9) + C(110, 10) - 1002`, counting increasing and decreasing ones by
/// stars and bars, the repdigits once, and leaving zero out.
pub fn eu113() -> (r: String)
    ensures
        r@ == labeled("eu113"@, (binomial(109, 9) + binomial(110, 10) - 1002) as nat),
{
    let (a, b) = binomials_up_to_ten();
    proof {
        lemma_binomial_power_bound(109, 9);
        lemma_binomial_power_bound(110, 10);
        lemma_power_base_mono(109, 110, 9);
        lemma_power_exp_mono_110(9);
        lemma_power_110();
        assert(binomial(110, 10) >= 1002) by {
            lemma_binomial_lower(110, 10);
            lemma_binomial_two(102);
        }
    }
    answer_wide("eu113", a + b - 1002)
}

/// The solutions of this range, in problem order.
pub fn get_functions() -> (fns: Vec<Solver>)
    ensures
        fns@ == seq![Solver::Eu112, Solver::Eu113, Solver::Eu114, Solver::Eu115, Solver::Eu116, Solver::Eu117, Solver::Eu120],
{
    let mut fns: Vec<Solver> = Vec::new();
    fns.push(Solver::Eu112);
    fns.push(Solver::Eu113);
    fns.push(Solver::Eu114);
    fns.push(Solver::Eu115);
    fns.push(Solver::Eu116);
    fns.push(Solver::Eu117);
    fns.push(Solver::Eu120);
    assert(fns@ =~= seq![Solver::Eu112, Solver::Eu113, Solver::Eu114, Solver::Eu115, Solver::Eu116, Solver::Eu117, Solver::Eu120]);
    fns
}

} // verus!

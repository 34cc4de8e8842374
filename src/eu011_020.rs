//! Solutions to problems 11 through 20.
use vstd::prelude::*;
use crate::solver::Solver;
use vstd::arithmetic::power::pow;
use vstd::arithmetic::power2::{pow2, lemma_pow2_unfold, lemma2_to64};
use crate::decimal::{answer, answer_wide, decimal, labeled};

verus! {

/// The binomial coefficient `n choose k`, by Pascal's rule.
pub open spec fn binomial(n: nat, k: nat) -> nat
    decreases n,
{
    if k == 0 {
        1
    } else if n == 0 {
        0
    } else {
        binomial((n - 1) as nat, (k - 1) as nat) + binomial((n - 1) as nat, k)
    }
}

proof fn lemma_binomial_bound(n: nat, k: nat)
    ensures
        binomial(n, k) <= pow2(n),
    decreases n,
{
    lemma2_to64();
    if k > 0 && n > 0 {
        lemma_pow2_unfold(n);
        lemma_binomial_bound((n - 1) as nat, (k - 1) as nat);
        lemma_binomial_bound((n - 1) as nat, k);
    } else if k == 0 {
        vstd::arithmetic::power2::lemma_pow2_pos(n);
    }
}

/// Lattice paths: the routes through a 20 by 20 grid, moving only right and
/// down, are `40 choose 20`; computed row by row of Pascal's triangle.
fn lattice_paths() -> (r: u64)
    ensures
        r == binomial(40, 20),
{
    let mut row: Vec<u64> = vec![0; 41];
    row.set(0, 1);
    proof {
        lemma2_to64();
        vstd::arithmetic::power2::lemma2_to64_rest();
    }
    let mut n: usize = 0;
    while n < 40
        invariant
            n <= 40,
            row@.len() == 41,
            pow2(40) == 0x10000000000,
            forall|k: int| 0 <= k <= 40 ==> #[trigger] row@[k] == binomial(n as nat, k as nat),
        decreases 40 - n,
    {
        let mut k: usize = 40;
        while k > 0
            invariant
                0 <= k <= 40,
                n < 40,
                row@.len() == 41,
                pow2(40) == 0x10000000000,
                forall|j: int| 0 <= j <= k ==> #[trigger] row@[j] == binomial(n as nat, j as nat),
                forall|j: int| k < j <= 40 ==> #[trigger] row@[j] == binomial((n + 1) as nat, j as nat),
            decreases k,
        {
            proof {
                lemma_binomial_bound((n + 1) as nat, k as nat);
                if n + 1 < 40 {
                    vstd::arithmetic::power2::lemma_pow2_strictly_increases((n + 1) as nat, 40);
                }
            }
            let v = row[k] + row[k - 1];
            row.set(k, v);
            k = k - 1;
        }
        n = n + 1;
    }
    row[20]
}

/// Lattice paths.
pub fn eu015() -> (r: String)
    ensures
        r@ == labeled("eu015"@, binomial(40, 20)),
{
    answer("eu015", lattice_paths())
}

/// Relies on num's `pow` over `BigUint` and on `BigUint`'s `Display`, which
/// writes the exact decimal digits of `base^exp`.
#[verifier::external_body]
fn big_power_decimal(base: u32, exp: usize) -> (r: String)
    ensures
        r@ == decimal(pow(base as int, exp as nat) as nat),
{
    num::pow(num::BigUint::from(base), exp).to_string()
}

/// The value of a decimal digit character; zero for any other character.
pub open spec fn char_digit(c: char) -> nat {
    if c == '1' {
        1
    } else if c == '2' {
        2
    } else if c == '3' {
        3
    } else if c == '4' {
        4
    } else if c == '5' {
        5
    } else if c == '6' {
        6
    } else if c == '7' {
        7
    } else if c == '8' {
        8
    } else if c == '9' {
        9
    } else {
        0
    }
}

/// The digits of a text added up.
pub open spec fn digit_total(s: Seq<char>) -> nat
    decreases s.len(),
{
    if s.len() == 0 {
        0
    } else {
        digit_total(s.drop_last()) + char_digit(s.last())
    }
}

fn char_value(c: char) -> (d: u128)
    ensures
        d == char_digit(c),
{
    if c == '1' {
        1
    } else if c == '2' {
        2
    } else if c == '3' {
        3
    } else if c == '4' {
        4
    } else if c == '5' {
        5
    } else if c == '6' {
        6
    } else if c == '7' {
        7
    } else if c == '8' {
        8
    } else if c == '9' {
        9
    } else {
        0
    }
}

/// The sum of the digits of a decimal text.
pub fn sum_of_digits(s: &str) -> (r: u128)
    ensures
        r == digit_total(s@),
{
    let len = s.unicode_len();
    let mut sum: u128 = 0;
    let mut i: usize = 0;
    while i < len
        invariant
            len == s@.len(),
            i <= len,
            sum == digit_total(s@.subrange(0, i as int)),
            sum <= 9 * i,
        decreases len - i,
    {
        let c = s.get_char(i);
        proof {
            assert(s@.subrange(0, i + 1).drop_last() =~= s@.subrange(0, i as int));
        }
        sum = sum + char_value(c);
        i = i + 1;
    }
    assert(s@.subrange(0, len as int) =~= s@);
    sum
}

/// Power digit sum: the digits of `2^1000` added up.
pub fn eu016() -> (r: String)
    ensures
        r@ == labeled("eu016"@, digit_total(decimal(pow(2, 1000) as nat))),
{
    let text = big_power_decimal(2, 1000);
    answer_wide("eu016", sum_of_digits(text.as_str()))
}

/// Whether `y` is a leap year of the Gregorian calendar.
pub open spec fn is_leap(y: nat) -> bool {
    y % 4 == 0 && (y % 100 != 0 || y % 400 == 0)
}

/// The days of month `m` (0 for January) of year `y`.
pub open spec fn month_days(y: nat, m: nat) -> nat {
    if m == 1 {
        if is_leap(y) {
            29
        } else {
            28
        }
    } else if m == 3 || m == 5 || m == 8 || m == 10 {
        30
    } else {
        31
    }
}

/// The days from 1 January 1900 to the first of the `t`-th month after January 1900.
pub open spec fn days_before_month(t: nat) -> nat
    decreases t,
{
    if t == 0 {
        0
    } else {
        days_before_month((t - 1) as nat) + month_days(1900 + (t - 1) as nat / 12, (t - 1) as nat % 12)
    }
}

/// The months among the first `t` after January 1900, from January 1901 on,
/// that begin on a Sunday (1 January 1900 was a Monday).
pub open spec fn sunday_starts(t: nat) -> nat
    decreases t,
{
    if t == 0 {
        0
    } else {
        sunday_starts((t - 1) as nat) + if t - 1 >= 12 && days_before_month((t - 1) as nat) % 7 == 6 {
            1nat
        } else {
            0
        }
    }
}

fn days_in_month(y: u64, m: u64) -> (d: u64)
    requires
        m < 12,
    ensures
        d == month_days(y as nat, m as nat),
{
    if m == 1 {
        if y % 4 == 0 && (y % 100 != 0 || y % 400 == 0) {
            29
        } else {
            28
        }
    } else if m == 3 || m == 5 || m == 8 || m == 10 {
        30
    } else {
        31
    }
}

/// Counting Sundays: the months of the twentieth century (1901 to 2000) that
/// begin on a Sunday.
fn counting_sundays() -> (r: u64)
    ensures
        r == sunday_starts(1212),
{
    let mut weekday: u64 = 0;
    let mut count: u64 = 0;
    let mut t: u64 = 0;
    while t < 1212
        invariant
            t <= 1212,
            weekday == days_before_month(t as nat) % 7,
            count == sunday_starts(t as nat),
            count <= t,
        decreases 1212 - t,
    {
        if t >= 12 && weekday == 6 {
            count = count + 1;
        }
        let d = days_in_month(1900 + t / 12, t % 12);
        weekday = (weekday + d) % 7;
        t = t + 1;
    }
    count
}

/// Counting Sundays.
pub fn eu019() -> (r: String)
    ensures
        r@ == labeled("eu019"@, sunday_starts(1212)),
{
    answer("eu019", counting_sundays())
}

/// The English word of `1 <= n <= 19`; empty otherwise.
pub open spec fn unit_word(n: nat) -> Seq<char> {
    if n == 1 {
        "one"@
    } else if n == 2 {
        "two"@
    } else if n == 3 {
        "three"@
    } else if n == 4 {
        "four"@
    } else if n == 5 {
        "five"@
    } else if n == 6 {
        "six"@
    } else if n == 7 {
        "seven"@
    } else if n == 8 {
        "eight"@
    } else if n == 9 {
        "nine"@
    } else if n == 10 {
        "ten"@
    } else if n == 11 {
        "eleven"@
    } else if n == 12 {
        "twelve"@
    } else if n == 13 {
        "thirteen"@
    } else if n == 14 {
        "fourteen"@
    } else if n == 15 {
        "fifteen"@
    } else if n == 16 {
        "sixteen"@
    } else if n == 17 {
        "seventeen"@
    } else if n == 18 {
        "eighteen"@
    } else if n == 19 {
        "nineteen"@
    } else {
        Seq::<char>::empty()
    }
}

/// The English word of the multiple of ten `10 t`, for `2 <= t <= 9`; empty otherwise.
pub open spec fn tens_word(t: nat) -> Seq<char> {
    if t == 2 {
        "twenty"@
    } else if t == 3 {
        "thirty"@
    } else if t == 4 {
        "forty"@
    } else if t == 5 {
        "fifty"@
    } else if t == 6 {
        "sixty"@
    } else if t == 7 {
        "seventy"@
    } else if t == 8 {
        "eighty"@
    } else if t == 9 {
        "ninety"@
    } else {
        Seq::<char>::empty()
    }
}

/// The letters of `n < 100` in words, spaces and hyphens left out.
pub open spec fn words_below_hundred(n: nat) -> Seq<char> {
    if n < 20 {
        unit_word(n)
    } else {
        tens_word(n / 10) + unit_word(n % 10)
    }
}

/// The letters of `1 <= n <= 1000` written out in British usage ("three
/// hundred and forty-two"), spaces and hyphens left out.
pub open spec fn number_words(n: nat) -> Seq<char> {
    if n == 1000 {
        "onethousand"@
    } else {
        (if n / 100 > 0 {
            unit_word(n / 100) + "hundred"@
        } else {
            Seq::<char>::empty()
        }) + (if n / 100 > 0 && n % 100 > 0 {
            "and"@
        } else {
            Seq::<char>::empty()
        }) + words_below_hundred(n % 100)
    }
}

/// The letters used to write out all numbers from 1 to `n`.
pub open spec fn letter_total(n: nat) -> nat
    decreases n,
{
    if n == 0 {
        0
    } else {
        letter_total((n - 1) as nat) + number_words(n).len()
    }
}

fn unit_len(n: u64) -> (r: u64)
    ensures
        r == unit_word(n as nat).len(),
        r <= 9,
{
    proof {
        reveal_strlit("one");
        reveal_strlit("two");
        reveal_strlit("three");
        reveal_strlit("four");
        reveal_strlit("five");
        reveal_strlit("six");
        reveal_strlit("seven");
        reveal_strlit("eight");
        reveal_strlit("nine");
        reveal_strlit("ten");
        reveal_strlit("eleven");
        reveal_strlit("twelve");
        reveal_strlit("thirteen");
        reveal_strlit("fourteen");
        reveal_strlit("fifteen");
        reveal_strlit("sixteen");
        reveal_strlit("seventeen");
        reveal_strlit("eighteen");
        reveal_strlit("nineteen");
    }
    if n == 1 {
        3
    } else if n == 2 {
        3
    } else if n == 3 {
        5
    } else if n == 4 {
        4
    } else if n == 5 {
        4
    } else if n == 6 {
        3
    } else if n == 7 {
        5
    } else if n == 8 {
        5
    } else if n == 9 {
        4
    } else if n == 10 {
        3
    } else if n == 11 {
        6
    } else if n == 12 {
        6
    } else if n == 13 {
        8
    } else if n == 14 {
        8
    } else if n == 15 {
        7
    } else if n == 16 {
        7
    } else if n == 17 {
        9
    } else if n == 18 {
        8
    } else if n == 19 {
        8
    } else {
        0
    }
}

fn tens_len(t: u64) -> (r: u64)
    ensures
        r == tens_word(t as nat).len(),
        r <= 7,
{
    proof {
        reveal_strlit("twenty");
        reveal_strlit("thirty");
        reveal_strlit("forty");
        reveal_strlit("fifty");
        reveal_strlit("sixty");
        reveal_strlit("seventy");
        reveal_strlit("eighty");
        reveal_strlit("ninety");
    }
    if t == 2 {
        6
    } else if t == 3 {
        6
    } else if t == 4 {
        5
    } else if t == 5 {
        5
    } else if t == 6 {
        5
    } else if t == 7 {
        7
    } else if t == 8 {
        6
    } else if t == 9 {
        6
    } else {
        0
    }
}

/// The letters of `1 <= n <= 1000` written out in words.
fn number_letters(n: u64) -> (r: u64)
    requires
        1 <= n <= 1000,
    ensures
        r == number_words(n as nat).len(),
        r <= 50,
{
    proof {
        reveal_strlit("onethousand");
        reveal_strlit("hundred");
        reveal_strlit("and");
    }
    if n == 1000 {
        return 11;
    }
    let h = n / 100;
    let rest = n % 100;
    let mut len: u64 = 0;
    if h > 0 {
        len = unit_len(h) + 7;
        if rest > 0 {
            len = len + 3;
        }
    }
    if rest < 20 {
        len = len + unit_len(rest);
    } else {
        len = len + tens_len(rest / 10) + unit_len(rest % 10);
    }
    len
}

/// Number letter counts: the letters used to write out 1 to 1000 in words.
fn number_letter_counts() -> (r: u64)
    ensures
        r == letter_total(1000),
{
    let mut sum: u64 = 0;
    let mut k: u64 = 1;
    while k <= 1000
        invariant
            1 <= k <= 1001,
            sum == letter_total((k - 1) as nat),
            sum <= 50 * k,
        decreases 1001 - k,
    {
        sum = sum + number_letters(k);
        k = k + 1;
    }
    sum
}

/// Number letter counts.
pub fn eu017() -> (r: String)
    ensures
        r@ == labeled("eu017"@, letter_total(1000)),
{
    answer("eu017", number_letter_counts())
}

/// The solutions of this range, in problem order.
pub fn get_functions() -> (fns: Vec<Solver>)
    ensures
        fns@ == seq![Solver::Eu015, Solver::Eu016, Solver::Eu017, Solver::Eu019],
{
    let mut fns: Vec<Solver> = Vec::new();
    fns.push(Solver::Eu015);
    fns.push(Solver::Eu016);
    fns.push(Solver::Eu017);
    fns.push(Solver::Eu019);
    assert(fns@ =~= seq![Solver::Eu015, Solver::Eu016, Solver::Eu017, Solver::Eu019]);
    fns
}

} // verus!

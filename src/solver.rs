//! The solutions as tasks that a registry can hold.
use vstd::prelude::*;
use vstd::arithmetic::power::pow;
use crate::decimal::{decimal, labeled};
use crate::eu001_010::{divisible_11_to_19, even_fib_sum, fib, largest_palindrome_product, multiples_of_3_or_5, triple_of_thousand};
use crate::eu011_020::{binomial, digit_total, letter_total, sunday_starts};
use crate::eu021_030::{amicable_total, digit_pow5_total, longest_cycle_denominator, non_abundant_total};
use crate::eu071_080::{partitions};
use crate::eu091_100::{disc_pair, disc_total, perimeter_total};
use crate::eu111_120::{block_ways, bouncy_count, mixed_tile_ways, one_colour_replacements, square_remainder_total};
use crate::euler_p031_040::{coin_ways, digit_factorial_total, most_right_triangles};
use crate::euler_p041_050::{self_power_total};
use crate::euler_p051_060::{large_binomials};
use crate::euler_p101_110::{checkouts};
use crate::eu001_010::{eu001, eu002, eu004, eu005, eu006, eu009};
use crate::eu011_020::{eu015, eu016, eu017, eu019};
use crate::eu021_030::{eu021, eu023, eu026, eu028, eu030};
use crate::eu071_080::{eu071, eu076};
use crate::eu091_100::{eu094, eu097, eu100};
use crate::eu111_120::{eu112, eu113, eu114, eu115, eu116, eu117, eu120};
use crate::eu121_130::{eu127, eu128, eu129, eu130};
use crate::euler_p021_030::{p026, p028, p030};
use crate::euler_p031_040::{p031, p034, p039};
use crate::euler_p041_050::{p048};
use crate::euler_p051_060::{p053};
use crate::euler_p071_080::{p071, p076};
use crate::euler_p101_110::{p109};
use crate::euler_p111_120::{p112, p114, p115, p116, p117, p120};
use crate::euler_p121_130::{p128, p129, p130};
use crate::euler_p021_030;
use crate::euler_p031_040;
use crate::euler_p041_050;
use crate::euler_p051_060;
use crate::euler_p071_080;
use crate::euler_p101_110;
use crate::euler_p111_120;
use crate::euler_p121_130;
use crate::registry::build_registry;

verus! {

/// One solution, run by `Solver::solve`.
#[derive(PartialEq, Eq, Structural, Clone, Copy, Debug)]
pub enum Solver {
    Eu001,
    Eu002,
    Eu004,
    Eu005,
    Eu006,
    Eu009,
    Eu015,
    Eu016,
    Eu017,
    Eu019,
    Eu021,
    Eu023,
    Eu026,
    Eu028,
    Eu030,
    Eu071,
    Eu076,
    Eu094,
    Eu097,
    Eu100,
    Eu112,
    Eu113,
    Eu114,
    Eu115,
    Eu116,
    Eu117,
    Eu120,
    Eu127,
    Eu128,
    Eu129,
    Eu130,
    P026,
    P028,
    P030,
    P031,
    P034,
    P039,
    P048,
    P053,
    P071,
    P076,
    P109,
    P112,
    P114,
    P115,
    P116,
    P117,
    P120,
    P128,
    P129,
    P130,
}

/// What the text reported by a solution states.
pub open spec fn solved(s: Solver, text: Seq<char>) -> bool {
    match s {
        Solver::Eu001 => {
            text == labeled("eu001"@, multiples_of_3_or_5(1000))
        },
        Solver::Eu002 => {
            exists|k: nat|
                text == labeled("eu002"@, even_fib_sum(k)) && fib(k) >= 4_000_000 && forall|j: nat|
                    j < k ==> #[trigger] fib(j) < 4_000_000
        },
        Solver::Eu004 => {
            exists|m: nat| text == labeled("eu004"@, m) && largest_palindrome_product(m)
        },
        Solver::Eu005 => {
            exists|k: nat|
                #![trigger labeled("eu005"@, 2520 * k)]
                text == labeled("eu005"@, 2520 * k) && k >= 1 && divisible_11_to_19(2520 * k) && forall|
                    j: nat,
                | 1 <= j < k ==> !divisible_11_to_19(#[trigger] (2520 * j))
        },
        Solver::Eu006 => {
            text == labeled("eu006"@, 25164150)
        },
        Solver::Eu009 => {
            exists|m: nat|
                text == labeled("eu009"@, m) && ((m != 0 && exists|a: nat, b: nat, c: nat|
                    #[trigger] triple_of_thousand(a, b, c) && m == a * b * c) || (m == 0 && forall|
                    a: nat,
                    b: nat,
                    c: nat,
                | #[trigger] triple_of_thousand(a, b, c) && b < 500 ==> false))
        },
        Solver::Eu015 => {
            text == labeled("eu015"@, binomial(40, 20))
        },
        Solver::Eu016 => {
            text == labeled("eu016"@, digit_total(decimal(pow(2, 1000) as nat)))
        },
        Solver::Eu017 => {
            text == labeled("eu017"@, letter_total(1000))
        },
        Solver::Eu019 => {
            text == labeled("eu019"@, sunday_starts(1212))
        },
        Solver::Eu021 => {
            text == labeled("eu021"@, amicable_total(10000) / 2)
        },
        Solver::Eu023 => {
            text == labeled("eu023"@, non_abundant_total(28124))
        },
        Solver::Eu026 => {
            exists|d: nat| text == labeled("eu026"@, d) && longest_cycle_denominator(d)
        },
        Solver::Eu028 => {
            text == labeled("eu028"@, 669171001)
        },
        Solver::Eu030 => {
            text == labeled("eu030"@, digit_pow5_total(236196))
        },
        Solver::Eu071 => {
            text == labeled("eu071"@, 428570)
        },
        Solver::Eu076 => {
            text == labeled("eu076"@, partitions(99, 100))
        },
        Solver::Eu094 => {
            exists|j: nat|
                text == labeled("eu094"@, #[trigger] perimeter_total(j) as nat) && 0 <= perimeter_total(j)
                    <= 1_000_000_000 && perimeter_total(j + 1) > 1_000_000_000
        },
        Solver::Eu097 => {
            text == labeled("eu097"@, ((28433 * pow(2, 7830457)) % 10_000_000_000 + 1) as nat)
        },
        Solver::Eu100 => {
            exists|k: nat|
                text == labeled("eu100"@, (#[trigger] disc_pair(k)).0) && disc_total(k)
                    >= 1_000_000_000_000 && forall|j: nat|
                    j < k ==> #[trigger] disc_total(j) < 1_000_000_000_000
        },
        Solver::Eu112 => {
            exists|n: nat|
                text == labeled("eu112"@, n) && ((n != 0 && 100 * bouncy_count(n) == 99 * n && forall|
                    j: nat,
                |
                    1 <= j < n ==> 100 * #[trigger] bouncy_count(j) != 99 * j) || (n == 0 && forall|
                    j: nat,
                | 1 <= j < u64::MAX / 100 ==> 100 * #[trigger] bouncy_count(j) != 99 * j))
        },
        Solver::Eu113 => {
            text == labeled("eu113"@, (binomial(109, 9) + binomial(110, 10) - 1002) as nat)
        },
        Solver::Eu114 => {
            text == labeled("eu114"@, block_ways(50, 3))
        },
        Solver::Eu115 => {
            exists|n: nat|
                text == labeled("eu115"@, n) && n >= 1 && block_ways(n, 50) > 1_000_000 && forall|j: nat|
                    1 <= j < n ==> #[trigger] block_ways(j, 50) <= 1_000_000
        },
        Solver::Eu116 => {
            text == labeled("eu116"@, one_colour_replacements())
        },
        Solver::Eu117 => {
            text == labeled("eu117"@, mixed_tile_ways(50))
        },
        Solver::Eu120 => {
            text == labeled("eu120"@, square_remainder_total(1001))
        },
        Solver::Eu127 => {
            text == "eu127 = unimplemented"@
        },
        Solver::Eu128 => {
            text == "eu128 = unimplemented"@
        },
        Solver::Eu129 => {
            text == "eu129 = unimplemented"@
        },
        Solver::Eu130 => {
            text == "eu130 = unimplemented"@
        },
        Solver::P026 => {
            exists|d: nat| text == labeled("p026"@, d) && longest_cycle_denominator(d)
        },
        Solver::P028 => {
            text == labeled("p028"@, 669171001)
        },
        Solver::P030 => {
            text == labeled("p030"@, digit_pow5_total(236196))
        },
        Solver::P031 => {
            text == labeled("p031"@, coin_ways(8, 200))
        },
        Solver::P034 => {
            text == labeled("p034"@, digit_factorial_total(1814401))
        },
        Solver::P039 => {
            exists|p: nat| text == labeled("p039"@, p) && most_right_triangles(p as int)
        },
        Solver::P048 => {
            text == labeled("p048"@, (self_power_total(1000) % 10_000_000_000) as nat)
        },
        Solver::P053 => {
            text == labeled("p053"@, large_binomials(101))
        },
        Solver::P071 => {
            text == labeled("p071"@, 428570)
        },
        Solver::P076 => {
            text == labeled("p076"@, partitions(99, 100))
        },
        Solver::P109 => {
            text == labeled("p109"@, checkouts(63, 100))
        },
        Solver::P112 => {
            exists|n: nat|
                text == labeled("p112"@, n) && ((n != 0 && 100 * bouncy_count(n) == 99 * n && forall|
                    j: nat,
                |
                    1 <= j < n ==> 100 * #[trigger] bouncy_count(j) != 99 * j) || (n == 0 && forall|
                    j: nat,
                | 1 <= j < u64::MAX / 100 ==> 100 * #[trigger] bouncy_count(j) != 99 * j))
        },
        Solver::P114 => {
            text == labeled("p114"@, block_ways(50, 3))
        },
        Solver::P115 => {
            exists|n: nat|
                text == labeled("p115"@, n) && n >= 1 && block_ways(n, 50) > 1_000_000 && forall|j: nat|
                    1 <= j < n ==> #[trigger] block_ways(j, 50) <= 1_000_000
        },
        Solver::P116 => {
            text == labeled("p116"@, one_colour_replacements())
        },
        Solver::P117 => {
            text == labeled("p117"@, mixed_tile_ways(50))
        },
        Solver::P120 => {
            text == labeled("p120"@, square_remainder_total(1001))
        },
        Solver::P128 => {
            text == "p128 = unimplemented"@
        },
        Solver::P129 => {
            text == "p129 = unimplemented"@
        },
        Solver::P130 => {
            text == "p130 = unimplemented"@
        },
    }
}

impl Solver {
    /// Runs the solution and returns the text it reports.
    pub fn solve(self) -> (r: String)
        ensures
            solved(self, r@),
    {
        match self {
            Solver::Eu001 => eu001(),
            Solver::Eu002 => eu002(),
            Solver::Eu004 => eu004(),
            Solver::Eu005 => eu005(),
            Solver::Eu006 => eu006(),
            Solver::Eu009 => eu009(),
            Solver::Eu015 => eu015(),
            Solver::Eu016 => eu016(),
            Solver::Eu017 => eu017(),
            Solver::Eu019 => eu019(),
            Solver::Eu021 => eu021(),
            Solver::Eu023 => eu023(),
            Solver::Eu026 => eu026(),
            Solver::Eu028 => eu028(),
            Solver::Eu030 => eu030(),
            Solver::Eu071 => eu071(),
            Solver::Eu076 => eu076(),
            Solver::Eu094 => eu094(),
            Solver::Eu097 => eu097(),
            Solver::Eu100 => eu100(),
            Solver::Eu112 => eu112(),
            Solver::Eu113 => eu113(),
            Solver::Eu114 => eu114(),
            Solver::Eu115 => eu115(),
            Solver::Eu116 => eu116(),
            Solver::Eu117 => eu117(),
            Solver::Eu120 => eu120(),
            Solver::Eu127 => eu127(),
            Solver::Eu128 => eu128(),
            Solver::Eu129 => eu129(),
            Solver::Eu130 => eu130(),
            Solver::P026 => p026(),
            Solver::P028 => p028(),
            Solver::P030 => p030(),
            Solver::P031 => p031(),
            Solver::P034 => p034(),
            Solver::P039 => p039(),
            Solver::P048 => p048(),
            Solver::P053 => p053(),
            Solver::P071 => p071(),
            Solver::P076 => p076(),
            Solver::P109 => p109(),
            Solver::P112 => p112(),
            Solver::P114 => p114(),
            Solver::P115 => p115(),
            Solver::P116 => p116(),
            Solver::P117 => p117(),
            Solver::P120 => p120(),
            Solver::P128 => p128(),
            Solver::P129 => p129(),
            Solver::P130 => p130(),
        }
    }
}

/// Every solution of the `pNNN` series, range after range, each range in
/// problem order.
pub fn get_all_functions() -> (fns: Vec<Solver>)
    ensures
        fns@ == seq![
            Solver::P026, Solver::P028, Solver::P030, Solver::P031, Solver::P034, Solver::P039,
            Solver::P048, Solver::P053, Solver::P071, Solver::P076, Solver::P109, Solver::P112,
            Solver::P114, Solver::P115, Solver::P116, Solver::P117, Solver::P120,
        ],
{
    let mut lists: Vec<Vec<Solver>> = Vec::new();
    lists.push(euler_p021_030::get_functions());
    lists.push(euler_p031_040::get_functions());
    lists.push(euler_p041_050::get_functions());
    lists.push(euler_p051_060::get_functions());
    lists.push(euler_p071_080::get_functions());
    lists.push(euler_p101_110::get_functions());
    lists.push(euler_p111_120::get_functions());
    lists.push(euler_p121_130::get_functions());
    let fns = build_registry(lists);
    proof {
        reveal_with_fuel(Seq::flatten, 9);
        assert(fns@ =~= seq![
            Solver::P026, Solver::P028, Solver::P030, Solver::P031, Solver::P034, Solver::P039,
            Solver::P048, Solver::P053, Solver::P071, Solver::P076, Solver::P109, Solver::P112,
            Solver::P114, Solver::P115, Solver::P116, Solver::P117, Solver::P120,
        ]);
    }
    fns
}

} // verus!

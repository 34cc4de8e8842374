use euler::eu001_010::{eu001, eu002, eu004, eu005, eu006, eu009};
use euler::eu011_020::{eu015, eu016, eu017, eu019};
use euler::eu021_030::{eu021, eu023, eu026, eu028, eu030};
use euler::eu071_080::{eu071, eu076};
use euler::eu091_100::{eu094, eu097, eu100};
use euler::eu111_120::{eu112, eu113, eu114, eu115, eu116, eu117, eu120};
use euler::eu121_130::{eu127, eu128, eu129, eu130};
use euler::euler_p021_030::{p026, p028, p030};
use euler::euler_p031_040::{p031, p034, p039};
use euler::euler_p041_050::{p048};
use euler::euler_p051_060::{p053};
use euler::euler_p071_080::{p071, p076};
use euler::euler_p101_110::{count_checkouts, p109};
use euler::euler_p111_120::{p112, p114, p115, p116, p117, p120};
use euler::euler_p121_130::{p128, p129, p130};
use euler::solver::{get_all_functions, Solver};

#[test]
fn eu001_answer() {
    assert_eq!(eu001(), "eu001 = 233168");
}

#[test]
fn eu002_answer() {
    assert_eq!(eu002(), "eu002 = 4613732");
}

#[test]
fn eu004_answer() {
    assert_eq!(eu004(), "eu004 = 906609");
}

#[test]
fn eu005_answer() {
    assert_eq!(eu005(), "eu005 = 232792560");
}

#[test]
fn eu006_answer() {
    assert_eq!(eu006(), "eu006 = 25164150");
}

#[test]
fn eu009_answer() {
    assert_eq!(eu009(), "eu009 = 31875000");
}

#[test]
fn eu015_answer() {
    assert_eq!(eu015(), "eu015 = 137846528820");
}

#[test]
fn eu016_answer() {
    assert_eq!(eu016(), "eu016 = 1366");
}

#[test]
fn eu017_answer() {
    assert_eq!(eu017(), "eu017 = 21124");
}

#[test]
fn eu019_answer() {
    assert_eq!(eu019(), "eu019 = 171");
}

#[test]
fn eu021_answer() {
    assert_eq!(eu021(), "eu021 = 31626");
}

#[test]
fn eu023_answer() {
    assert_eq!(eu023(), "eu023 = 4179871");
}

#[test]
fn eu026_answer() {
    assert_eq!(eu026(), "eu026 = 983");
}

#[test]
fn eu028_answer() {
    assert_eq!(eu028(), "eu028 = 669171001");
}

#[test]
fn eu030_answer() {
    assert_eq!(eu030(), "eu030 = 443839");
}

#[test]
fn eu071_answer() {
    assert_eq!(eu071(), "eu071 = 428570");
}

#[test]
fn eu076_answer() {
    assert_eq!(eu076(), "eu076 = 190569291");
}

#[test]
fn eu094_answer() {
    assert_eq!(eu094(), "eu094 = 518408346");
}

#[test]
fn eu097_answer() {
    assert_eq!(eu097(), "eu097 = 8739992577");
}

#[test]
fn eu100_answer() {
    assert_eq!(eu100(), "eu100 = 756872327473");
}

#[test]
fn eu112_answer() {
    assert_eq!(eu112(), "eu112 = 1587000");
}

#[test]
fn eu113_answer() {
    assert_eq!(eu113(), "eu113 = 51161058134250");
}

#[test]
fn eu114_answer() {
    assert_eq!(eu114(), "eu114 = 16475640049");
}

#[test]
fn eu115_answer() {
    assert_eq!(eu115(), "eu115 = 168");
}

#[test]
fn eu116_answer() {
    assert_eq!(eu116(), "eu116 = 20492570929");
}

#[test]
fn eu117_answer() {
    assert_eq!(eu117(), "eu117 = 100808458960497");
}

#[test]
fn eu120_answer() {
    assert_eq!(eu120(), "eu120 = 333082500");
}

#[test]
fn eu127_answer() {
    assert_eq!(eu127(), "eu127 = unimplemented");
}

#[test]
fn eu128_answer() {
    assert_eq!(eu128(), "eu128 = unimplemented");
}

#[test]
fn eu129_answer() {
    assert_eq!(eu129(), "eu129 = unimplemented");
}

#[test]
fn eu130_answer() {
    assert_eq!(eu130(), "eu130 = unimplemented");
}

#[test]
fn p026_answer() {
    assert_eq!(p026(), "p026 = 983");
}

#[test]
fn p028_answer() {
    assert_eq!(p028(), "p028 = 669171001");
}

#[test]
fn p030_answer() {
    assert_eq!(p030(), "p030 = 443839");
}

#[test]
fn p031_answer() {
    assert_eq!(p031(), "p031 = 73682");
}

#[test]
fn p034_answer() {
    assert_eq!(p034(), "p034 = 40730");
}

#[test]
fn p039_answer() {
    assert_eq!(p039(), "p039 = 840");
}

#[test]
fn p048_answer() {
    assert_eq!(p048(), "p048 = 9110846700");
}

#[test]
fn p053_answer() {
    assert_eq!(p053(), "p053 = 4075");
}

#[test]
fn p071_answer() {
    assert_eq!(p071(), "p071 = 428570");
}

#[test]
fn p076_answer() {
    assert_eq!(p076(), "p076 = 190569291");
}

#[test]
fn p109_answer() {
    assert_eq!(p109(), "p109 = 38182");
}

#[test]
fn checkouts_below_six() {
    assert_eq!(count_checkouts(6), 11);
}

#[test]
fn p112_answer() {
    assert_eq!(p112(), "p112 = 1587000");
}

#[test]
fn p114_answer() {
    assert_eq!(p114(), "p114 = 16475640049");
}

#[test]
fn p115_answer() {
    assert_eq!(p115(), "p115 = 168");
}

#[test]
fn p116_answer() {
    assert_eq!(p116(), "p116 = 20492570929");
}

#[test]
fn p117_answer() {
    assert_eq!(p117(), "p117 = 100808458960497");
}

#[test]
fn p120_answer() {
    assert_eq!(p120(), "p120 = 333082500");
}

#[test]
fn p128_answer() {
    assert_eq!(p128(), "p128 = unimplemented");
}

#[test]
fn p129_answer() {
    assert_eq!(p129(), "p129 = unimplemented");
}

#[test]
fn p130_answer() {
    assert_eq!(p130(), "p130 = unimplemented");
}

#[test]
fn solver_runs_its_solution() {
    assert_eq!(Solver::Eu001.solve(), "eu001 = 233168");
    assert_eq!(Solver::P071.solve(), "p071 = 428570");
    assert_eq!(Solver::P130.solve(), "p130 = unimplemented");
}

#[test]
fn ranges_list_their_solutions() {
    assert!(euler::eu121_130::get_functions().is_empty());
    assert!(euler::euler_p121_130::get_functions().is_empty());
    assert_eq!(euler::euler_p071_080::get_functions(), vec![Solver::P071, Solver::P076]);
}

#[test]
fn all_functions_concatenate_the_ranges() {
    let all = get_all_functions();
    assert_eq!(all.len(), 17);
    assert_eq!(all[0], Solver::P026);
    assert_eq!(all[16], Solver::P120);
    let mut expected = Vec::new();
    for list in [
        euler::euler_p021_030::get_functions(),
        euler::euler_p031_040::get_functions(),
        euler::euler_p041_050::get_functions(),
        euler::euler_p051_060::get_functions(),
        euler::euler_p071_080::get_functions(),
        euler::euler_p101_110::get_functions(),
        euler::euler_p111_120::get_functions(),
        euler::euler_p121_130::get_functions(),
    ] {
        expected.extend(list);
    }
    assert_eq!(all, expected);
}

#[test]
fn palindromes_and_digits() {
    assert!(euler::eu001_010::palindrome(9009));
    assert!(euler::eu001_010::palindrome(0));
    assert!(!euler::eu001_010::palindrome(10));
    assert!(!euler::eu001_010::palindrome(9019));
    assert_eq!(euler::eu011_020::sum_of_digits("32768"), 26);
    assert_eq!(euler::eu011_020::sum_of_digits(""), 0);
}

#[test]
fn decimal_text() {
    assert_eq!(euler::decimal::to_decimal(0), "0");
    assert_eq!(euler::decimal::to_decimal(1907), "1907");
    assert_eq!(euler::decimal::to_decimal(u64::MAX), u64::MAX.to_string());
    assert_eq!(euler::decimal::answer("p001", 42), "p001 = 42");
    assert_eq!(euler::decimal::answer_wide("p002", u128::MAX), format!("p002 = {}", u128::MAX));
}

use euler::dispatch::{plan, select, InvalidSelector, Selection};
use euler::registry::{build_registry, find_id, get_fn_map};
use euler::report::{get_duration, make_report, record_line, sort_by_duration, speedup_thousandths, sum_of_durations, Record, Report};

fn task_a() -> String {
    "r1".to_string()
}

fn task_b() -> String {
    "r2".to_string()
}

fn task_c() -> String {
    "r3".to_string()
}

fn scenario_registry() -> Vec<fn() -> String> {
    build_registry(vec![vec![task_a as fn() -> String, task_b], vec![task_c]])
}

fn record(result: &str, micros: u64) -> Record {
    Record { result: result.to_string(), micros }
}

fn run_all(tasks: &[fn() -> String], durations: &[u64]) -> Vec<Record> {
    tasks.iter().zip(durations).map(|(f, &d)| Record { result: f(), micros: d }).collect()
}

#[test]
fn registry_concatenates_in_order() {
    let reg = build_registry(vec![vec![1u32, 2], vec![], vec![3], vec![4, 5]]);
    assert_eq!(reg, vec![1, 2, 3, 4, 5]);
}

#[test]
fn registry_of_no_lists_is_empty() {
    let reg: Vec<u32> = build_registry(vec![]);
    assert!(reg.is_empty());
    let reg: Vec<u32> = build_registry(vec![vec![]]);
    assert!(reg.is_empty());
}

fn ids<T>(map: &[(String, T)]) -> Vec<&str> {
    map.iter().map(|(id, _)| id.as_str()).collect()
}

#[test]
fn identifiers_follow_the_offset() {
    let map = get_fn_map(&vec!['a', 'b', 'c'], 5);
    assert_eq!(ids(&map), vec!["5", "6", "7"]);
    assert_eq!(map[1].1, 'b');
    let map = get_fn_map(&(0..12).collect::<Vec<u32>>(), 1);
    assert_eq!(map[9], ("10".to_string(), 9));
    assert_eq!(map[11], ("12".to_string(), 11));
    let map = get_fn_map(&Vec::<u32>::new(), 1);
    assert!(map.is_empty());
}

#[test]
fn find_id_locates_each_identifier() {
    let map = get_fn_map(&vec![10u8, 20, 30, 40], 98);
    assert_eq!(find_id(&map, &"98".to_string()), Some(0));
    assert_eq!(find_id(&map, &"101".to_string()), Some(3));
    assert_eq!(find_id(&map, &"102".to_string()), None);
    assert_eq!(find_id(&map, &"097".to_string()), None);
}

#[test]
fn select_resolves_selectors() {
    let three = vec![1u8, 2, 3];
    assert_eq!(select(&three, &None, 1), Selection::All);
    assert_eq!(select(&three, &Some("1".to_string()), 1), Selection::One(0));
    assert_eq!(select(&three, &Some("3".to_string()), 1), Selection::One(2));
    assert_eq!(select(&three, &Some("4".to_string()), 1), Selection::Invalid);
    assert_eq!(select(&three, &Some("0".to_string()), 1), Selection::Invalid);
    assert_eq!(select(&three, &Some("02".to_string()), 1), Selection::Invalid);
    assert_eq!(select(&three, &Some("two".to_string()), 1), Selection::Invalid);
    assert_eq!(select(&Vec::<u8>::new(), &Some("1".to_string()), 1), Selection::Invalid);
    assert_eq!(select(&vec![0u8; 10], &Some("120".to_string()), 111), Selection::One(9));
}

#[test]
fn scenario_select_one() {
    let reg = scenario_registry();
    let work = plan(&reg, &Some("2".to_string()), 1).unwrap();
    assert_eq!(work.len(), 1);
    let report = make_report(run_all(&work, &[40]), 45);
    assert_eq!(report.records.len(), 1);
    assert_eq!(report.records[0].result, "r2");
    assert_eq!(report.sum_micros, 40);
    assert_eq!(report.total_micros, 45);
}

#[test]
fn scenario_select_all() {
    let reg = scenario_registry();
    let work = plan(&reg, &None, 1).unwrap();
    assert_eq!(work.len(), 3);
    let report = make_report(run_all(&work, &[30, 10, 20]), 31);
    let results: Vec<&str> = report.records.iter().map(|r| r.result.as_str()).collect();
    assert_eq!(results, vec!["r2", "r3", "r1"]);
    let mut sorted = results.clone();
    sorted.sort();
    assert_eq!(sorted, vec!["r1", "r2", "r3"]);
    assert_eq!(report.sum_micros, 60);
    assert_eq!(report.speedup(), Some(1935));
}

#[test]
fn scenario_invalid_selector() {
    let reg = scenario_registry();
    let err = plan(&reg, &Some("4".to_string()), 1).unwrap_err();
    assert_eq!(err, InvalidSelector { arg: "4".to_string(), first: 1, count: 3 });
    assert_eq!(
        err.lines(),
        vec!["invalid argument: 4".to_string(), "valid argument: a number between 1 and 3".to_string()]
    );
}

#[test]
fn non_numeric_selector_is_invalid() {
    let reg = scenario_registry();
    let err = plan(&reg, &Some("abc".to_string()), 1).unwrap_err();
    assert_eq!(err.arg, "abc");
    assert_eq!(err.lines()[0], "invalid argument: abc");
}

#[test]
fn zero_task_scenario() {
    let reg: Vec<fn() -> String> = build_registry(vec![vec![]]);
    let work = plan(&reg, &None, 1).unwrap();
    assert!(work.is_empty());
    let report = make_report(Vec::new(), 0);
    assert!(report.records.is_empty());
    assert_eq!(report.speedup(), None);
    let lines = report.lines();
    assert_eq!(lines[0], "Solving 0 Euler functions in parallel");
    assert_eq!(lines[4], "parallel speedup factor: not applicable");
    let err = plan(&reg, &Some("1".to_string()), 1).unwrap_err();
    assert_eq!(err.lines()[1], "valid argument: none, no task is registered");
}

#[test]
fn zero_tasks_with_measured_time_is_not_applicable() {
    let report = make_report(Vec::new(), 1);
    assert_eq!(report.speedup(), None);
    let lines = report.lines();
    assert_eq!(lines.len(), 5);
    assert_eq!(lines[2], "     total elapsed time: 0.000001 s");
    assert_eq!(lines[4], "parallel speedup factor: not applicable");
}

#[test]
fn speedup_never_exceeds_task_count() {
    let report = make_report(vec![record("a", 10), record("b", 10), record("c", 10)], 10);
    assert_eq!(report.speedup(), Some(3000));
}

#[test]
fn single_task_all_equals_selected() {
    let reg: Vec<fn() -> String> = vec![task_c];
    let all = plan(&reg, &None, 7).unwrap();
    let one = plan(&reg, &Some("7".to_string()), 7).unwrap();
    assert_eq!(all.len(), 1);
    assert_eq!(one.len(), 1);
    assert_eq!(all[0](), one[0]());
}

#[test]
fn sort_orders_by_duration_and_keeps_records() {
    let recs = vec![record("c", 5), record("a", 1), record("b", 5), record("d", 0), record("e", 3)];
    let sorted = sort_by_duration(recs);
    let ds: Vec<u64> = sorted.iter().map(|r| r.micros).collect();
    assert_eq!(ds, vec![0, 1, 3, 5, 5]);
    let mut names: Vec<&str> = sorted.iter().map(|r| r.result.as_str()).collect();
    names.sort();
    assert_eq!(names, vec!["a", "b", "c", "d", "e"]);
}

#[test]
fn sum_of_durations_adds_exactly() {
    let recs = vec![record("x", 1_500_000), record("y", 250), record("z", 0)];
    assert_eq!(sum_of_durations(&recs), 1_500_250);
    assert_eq!(sum_of_durations(&Vec::new()), 0);
}

#[test]
fn duration_in_microseconds() {
    assert_eq!(get_duration(0, 0), 0);
    assert_eq!(get_duration(2, 345_678_999), 2_345_678);
    assert_eq!(get_duration(0, 999), 0);
}

#[test]
fn speedup_is_rounded_thousandths() {
    assert_eq!(speedup_thousandths(10, 0), None);
    assert_eq!(speedup_thousandths(0, 5), Some(0));
    assert_eq!(speedup_thousandths(3, 3), Some(1000));
    assert_eq!(speedup_thousandths(2, 3), Some(667));
    assert_eq!(speedup_thousandths(1, 3), Some(333));
    assert_eq!(speedup_thousandths(u64::MAX, 1), Some(u64::MAX as u128 * 1000));
}

#[test]
fn report_lines_are_formatted() {
    let report: Report = make_report(vec![record("p001 = 1", 1_234_567), record("p002 = 22", 89)], 1_000_000);
    let lines = report.lines();
    assert_eq!(lines.len(), 7);
    assert_eq!(lines[0], "Solving 2 Euler functions in parallel");
    assert_eq!(lines[1], format!("{:25}, time = 0.000089 s", "p002 = 22"));
    assert_eq!(lines[2], format!("{:25}, time = 1.234567 s", "p001 = 1"));
    assert_eq!(lines[3], "");
    assert_eq!(lines[4], "     total elapsed time: 1.000000 s");
    assert_eq!(lines[5], " sum of execution times: 1.234656 s");
    assert_eq!(lines[6], "parallel speedup factor: 1.235");
}

#[test]
fn long_result_is_not_cut() {
    let line = record_line(&record("a result that is longer than the column", 10_000_000));
    assert_eq!(line, "a result that is longer than the column, time = 10.000000 s");
}

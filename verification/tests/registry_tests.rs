use aoc24::registry::DayImpl;
use aoc24::registry::Registry;
use aoc24::registry::input_path_for;
use aoc24::solution::OutputEvent;
use aoc24::solution::RunError;

const SAMPLE: &str = "3   4\n4   3\n2   5\n1   3\n3   9\n3   3\n";

#[test]
fn available_days_sorted_ascending() {
    let registry = Registry::new(vec![
        (2, DayImpl::Day1),
        (1, DayImpl::Day1),
        (3, DayImpl::Day1),
    ]);
    assert_eq!(registry.available_days(), vec![1, 2, 3]);
}

#[test]
fn duplicate_registration_keeps_one_entry() {
    let registry = Registry::new(vec![(1, DayImpl::Day1), (1, DayImpl::Day1)]);
    assert_eq!(registry.available_days(), vec![1]);
}

#[test]
fn unknown_day_fails_with_lookup_error() {
    let registry = Registry::new(vec![(1, DayImpl::Day1)]);
    match registry.run_day(999, &SAMPLE.as_bytes().to_vec(), true) {
        Err(RunError::Lookup(day)) => assert_eq!(day, 999),
        _ => panic!("expected a lookup error"),
    }
}

#[test]
fn lookup_error_states_the_day_number() {
    let registry = Registry::new(vec![(1, DayImpl::Day1)]);
    let err = registry
        .run_day(999, &SAMPLE.as_bytes().to_vec(), false)
        .unwrap_err();
    assert_eq!(err.describe().as_str(), "Day 999 not implemented");
}

#[test]
fn run_day_reports_both_answers() {
    let registry = Registry::new(vec![(1, DayImpl::Day1)]);
    let events = registry
        .run_day(1, &SAMPLE.as_bytes().to_vec(), false)
        .unwrap();
    assert_eq!(events.len(), 2);
    match &events[0] {
        OutputEvent::Part1(s) => assert_eq!(s.as_str(), "11"),
        _ => panic!("expected the first part's answer first"),
    }
    match &events[1] {
        OutputEvent::Part2(s) => assert_eq!(s.as_str(), "31"),
        _ => panic!("expected the second part's answer second"),
    }
}

#[test]
fn run_day_with_timing_reports_durations_in_order() {
    let registry = Registry::new(vec![(1, DayImpl::Day1)]);
    let events = registry
        .run_day(1, &SAMPLE.as_bytes().to_vec(), true)
        .unwrap();
    assert_eq!(events.len(), 5);
    assert!(matches!(events[0], OutputEvent::ParseTime(_)));
    match &events[1] {
        OutputEvent::Part1(s) => assert_eq!(s.as_str(), "11"),
        _ => panic!("expected the first part's answer"),
    }
    assert!(matches!(events[2], OutputEvent::Part1Time(_)));
    match &events[3] {
        OutputEvent::Part2(s) => assert_eq!(s.as_str(), "31"),
        _ => panic!("expected the second part's answer"),
    }
    assert!(matches!(events[4], OutputEvent::Part2Time(_)));
}

#[test]
fn unimplemented_part_produces_no_line_and_no_failure() {
    // both sums of this input overflow part one's answer type, so part one
    // yields no answer, while part two is zero
    let line = "9223372036854775807 -9223372036854775808\n";
    let input = format!("{}{}", line, line);
    let registry = Registry::new(vec![(1, DayImpl::Day1)]);
    let events = registry.run_day(1, &input.as_bytes().to_vec(), false).unwrap();
    assert_eq!(events.len(), 1);
    match &events[0] {
        OutputEvent::Part2(s) => assert_eq!(s.as_str(), "0"),
        _ => panic!("expected only the second part's answer"),
    }
}

#[test]
fn parse_failure_propagates_through_run_day() {
    let registry = Registry::new(vec![(1, DayImpl::Day1)]);
    match registry.run_day(1, &b"3\n".to_vec(), false) {
        Err(RunError::Parse(aoc24::solution::ParseError::InvalidLineFormat(line))) => {
            assert_eq!(line, b"3".to_vec())
        },
        _ => panic!("expected the parse failure to propagate"),
    }
}

#[test]
fn run_all_step_maps_fetch_failure_to_resource_error() {
    let registry = Registry::new(vec![(1, DayImpl::Day1)]);
    match registry.run_all_step(1, Err("inputs/day1.txt: not found".to_string()), false) {
        Err(RunError::Resource(m)) => assert_eq!(m.as_str(), "inputs/day1.txt: not found"),
        _ => panic!("expected a resource error"),
    }
}

#[test]
fn run_all_step_runs_fetched_input() {
    let registry = Registry::new(vec![(1, DayImpl::Day1)]);
    let events = registry
        .run_all_step(1, Ok(SAMPLE.as_bytes().to_vec()), false)
        .unwrap();
    assert_eq!(events.len(), 2);
}

#[test]
fn input_path_convention() {
    assert_eq!(input_path_for(7).as_str(), "inputs/day7.txt");
    assert_eq!(input_path_for(23).as_str(), "inputs/day23.txt");
}

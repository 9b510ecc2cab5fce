use aoc24::day1::Day;
use aoc24::solution::ParseError;
use aoc24::solution::Solution;

fn parse_ok(input: &str) -> aoc24::day1::State {
    <Day as Solution>::parse(&input.as_bytes().to_vec()).unwrap()
}

fn parse_err(input: &str) -> ParseError {
    match <Day as Solution>::parse(&input.as_bytes().to_vec()) {
        Ok(_) => panic!("expected a parse failure"),
        Err(e) => e,
    }
}

#[test]
fn scenario_two_columns() {
    let input = "3   4\n4   3\n2   5\n1   3\n3   9\n3   3\n";
    let state = parse_ok(input);
    assert_eq!(state.first().len(), 6);
    assert_eq!(state.second().len(), 6);
    assert_eq!(state.first(), &vec![1, 2, 3, 3, 3, 4]);
    assert_eq!(state.second(), &vec![3, 3, 3, 4, 5, 9]);
    assert_eq!(<Day as Solution>::part1(&state), Some(11));
    assert_eq!(<Day as Solution>::part2(&state), Some(31));
}

#[test]
fn parse_is_deterministic_on_equal_bytes() {
    let input = "3   4\n4   3\n2   5\n1   3\n3   9\n3   3\n";
    let a = parse_ok(input);
    let b = parse_ok(input);
    assert_eq!(a.first(), b.first());
    assert_eq!(a.second(), b.second());
}

#[test]
fn missing_second_column_reports_the_line() {
    match parse_err("3\n") {
        ParseError::InvalidLineFormat(line) => assert_eq!(line, b"3".to_vec()),
        _ => panic!("expected an invalid line format error"),
    }
}

#[test]
fn later_bad_line_reports_that_line() {
    match parse_err("1 2\n17\n3 4\n") {
        ParseError::InvalidLineFormat(line) => assert_eq!(line, b"17".to_vec()),
        _ => panic!("expected an invalid line format error"),
    }
}

#[test]
fn non_numeric_token_reports_the_token() {
    match parse_err("3 x\n") {
        ParseError::InvalidNumber(token) => assert_eq!(token, b"x".to_vec()),
        _ => panic!("expected an invalid number error"),
    }
}

#[test]
fn i64_bounds_parse() {
    let state = parse_ok("9223372036854775807 -9223372036854775808\n");
    assert_eq!(state.first(), &vec![i64::MAX]);
    assert_eq!(state.second(), &vec![i64::MIN]);
}

#[test]
fn i64_overflowing_numeral_is_rejected() {
    match parse_err("9223372036854775808 1\n") {
        ParseError::InvalidNumber(token) => {
            assert_eq!(token, b"9223372036854775808".to_vec())
        },
        _ => panic!("expected an invalid number error"),
    }
}

#[test]
fn plus_sign_and_crlf_accepted() {
    let state = parse_ok("+5 7\r\n");
    assert_eq!(state.first(), &vec![5]);
    assert_eq!(state.second(), &vec![7]);
    assert_eq!(<Day as Solution>::part1(&state), Some(2));
}

#[test]
fn empty_input_parses_to_empty_columns() {
    let state = parse_ok("");
    assert_eq!(state.first().len(), 0);
    assert_eq!(state.second().len(), 0);
    assert_eq!(<Day as Solution>::part1(&state), Some(0));
    assert_eq!(<Day as Solution>::part2(&state), Some(0));
}

#[test]
fn part1_too_large_for_i64_yields_no_answer() {
    let line = "9223372036854775807 -9223372036854775808\n";
    let state = parse_ok(&format!("{}{}", line, line));
    assert_eq!(<Day as Solution>::part1(&state), None);
    // no value of the left column occurs on the right
    assert_eq!(<Day as Solution>::part2(&state), Some(0));
}

#[test]
fn part2_weights_by_occurrences() {
    let state = parse_ok("-2 -2\n");
    assert_eq!(<Day as Solution>::part1(&state), Some(0));
    assert_eq!(<Day as Solution>::part2(&state), Some(-2));
}

#[test]
fn input_without_trailing_newline_parses() {
    let state = parse_ok("1 2");
    assert_eq!(state.first(), &vec![1]);
    assert_eq!(state.second(), &vec![2]);
}

#[test]
fn blank_line_is_an_invalid_line() {
    match parse_err("1 2\n\n3 4\n") {
        ParseError::InvalidLineFormat(line) => assert_eq!(line, b"".to_vec()),
        _ => panic!("expected an invalid line format error"),
    }
}

#[test]
fn rendering_answers() {
    assert_eq!(<Day as Solution>::render(&11).as_str(), "11");
    assert_eq!(<Day as Solution>::render(&-2).as_str(), "-2");
    assert_eq!(<Day as Solution>::render(&0).as_str(), "0");
    assert_eq!(
        <Day as Solution>::render(&i64::MIN).as_str(),
        "-9223372036854775808"
    );
}

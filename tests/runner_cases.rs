use std::cell::Cell;
use std::ops::{Range, RangeInclusive};

use table_cases::{collect_fails, collect_fails_eq, first_fail, report_fails};

#[test]
fn ranges_all_pass() {
    let cases: Vec<(usize, RangeInclusive<usize>)> = vec![(2, 1..=4), (3, 4..=6), (0, 1..=3)];
    let fails = collect_fails(
        cases,
        |input: &usize| input + 2,
        |output: &usize, expected: &RangeInclusive<usize>| expected.contains(output),
    );
    assert!(fails.is_empty());
    assert_eq!(report_fails(fails), Ok(()));
}

#[test]
fn half_open_range_excludes_its_end() {
    let cases: Vec<(usize, Range<usize>)> = vec![(2, 1..4), (3, 4..6), (0, 1..3)];
    let fails = collect_fails(cases, |input: &usize| input + 2, |output: &usize, expected: &Range<usize>| {
        expected.contains(output)
    });
    assert_eq!(fails, vec![(2, 1..4, 4, 1)]);
}

#[test]
fn strings_all_fail_with_default_equality() {
    let cases = vec![("input string", "expected string"), ("hello world!", "hello papa!")];
    let fails = collect_fails_eq(cases, |input: &&str| *input);
    assert_eq!(
        fails,
        vec![
            ("input string", "expected string", "input string", 1),
            ("hello world!", "hello papa!", "hello world!", 2),
        ]
    );
    let report = report_fails(fails).unwrap_err();
    assert_eq!(
        report,
        "One or more assertions failed:\n\
         test case 1: assertion failed for input `\"input string\"`\n\
         \texpected `\"expected string\"`\n\
         \tresult `\"input string\"`\n\n\
         test case 2: assertion failed for input `\"hello world!\"`\n\
         \texpected `\"hello papa!\"`\n\
         \tresult `\"hello world!\"`\n\n"
    );
}

#[test]
fn case_ids_count_all_cases() {
    let cases: Vec<(u32, bool)> = vec![(1, true), (2, true), (3, true), (4, true)];
    let fails = collect_fails(cases, |input: &u32| input % 2 == 1, |result: &bool, expected: &bool| {
        result == expected
    });
    let ids: Vec<usize> = fails.iter().map(|f| f.3).collect();
    assert_eq!(ids, vec![2, 4]);
    assert_eq!(fails[0], (2, true, false, 2));
    assert_eq!(fails[1], (4, true, false, 4));
}

#[test]
fn passing_cases_leave_no_record() {
    let cases: Vec<(i64, i64)> = vec![(1, 2), (5, 0), (7, 8), (-3, -2)];
    let fails = collect_fails_eq(cases, |input: &i64| input + 1);
    assert_eq!(fails, vec![(5, 0, 6, 2)]);
}

#[test]
fn repeated_runs_agree() {
    let make = || vec![(1u8, 1u8), (2, 5), (3, 3), (4, 9)];
    let first = collect_fails_eq(make(), |input: &u8| *input);
    let second = collect_fails_eq(make(), |input: &u8| *input);
    assert_eq!(first, second);
    assert_eq!(first, vec![(2, 5, 2, 2), (4, 9, 4, 4)]);
}

#[test]
fn default_equality_matches_explicit_equality() {
    let make = || vec![(10i32, 20i32), (7, 14), (3, 5)];
    let shorthand = collect_fails_eq(make(), |input: &i32| input * 2);
    let explicit = collect_fails(make(), |input: &i32| input * 2, |result: &i32, expected: &i32| {
        result == expected
    });
    assert_eq!(shorthand, explicit);
    assert_eq!(shorthand, vec![(3, 5, 6, 3)]);
}

#[test]
fn empty_cases_report_success() {
    let cases: Vec<(u8, u8)> = Vec::new();
    let fails = collect_fails_eq(cases, |input: &u8| *input);
    assert!(fails.is_empty());
    assert_eq!(report_fails(fails), Ok(()));
}

#[test]
fn test_runs_once_per_case() {
    let calls = Cell::new(0u32);
    let cases: Vec<(u8, u8)> = vec![(1, 1), (2, 0), (3, 3)];
    let fails = collect_fails_eq(cases, |input: &u8| {
        calls.set(calls.get() + 1);
        *input
    });
    assert_eq!(calls.get(), 3);
    assert_eq!(fails, vec![(2, 0, 2, 2)]);
}

#[test]
fn first_fail_stops_at_first_failure() {
    let calls = Cell::new(0u32);
    let cases: Vec<(u8, u8)> = vec![(1, 1), (2, 0), (3, 0), (4, 4)];
    let fail = first_fail(
        cases,
        |input: &u8| {
            calls.set(calls.get() + 1);
            *input
        },
        |result: &u8, expected: &u8| result == expected,
    );
    assert_eq!(fail, Some((2, 0, 2, 2)));
    assert_eq!(calls.get(), 2);
}

#[test]
fn first_fail_none_when_all_pass() {
    let cases: Vec<(u8, u8)> = vec![(1, 2), (2, 3)];
    let fail = first_fail(cases, |input: &u8| input + 1, |result: &u8, expected: &u8| result == expected);
    assert_eq!(fail, None);
}

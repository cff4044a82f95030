use std::fmt;

use table_cases::{case_message, describe_case, report_fails};

struct Unprintable;

impl fmt::Debug for Unprintable {
    fn fmt(&self, _f: &mut fmt::Formatter<'_>) -> fmt::Result {
        Err(fmt::Error)
    }
}

#[test]
fn case_message_with_renderings() {
    let text = case_message(7, Some("a".to_string()), Some("b".to_string()), Some("c".to_string()));
    assert_eq!(text, "test case 7: assertion failed for input `a`\n\texpected `b`\n\tresult `c`\n\n");
}

#[test]
fn case_message_fallback() {
    let text = case_message(12, None, None, None);
    assert_eq!(text, "test case 12: assertion failed, unable to print message\n\n");
}

#[test]
fn case_message_fallback_when_one_rendering_is_missing() {
    let text = case_message(5, Some("a".to_string()), None, Some("c".to_string()));
    assert_eq!(text, "test case 5: assertion failed, unable to print message\n\n");
}

#[test]
fn case_message_decimal_ids() {
    assert!(case_message(0, None, None, None).starts_with("test case 0: "));
    assert!(case_message(10, None, None, None).starts_with("test case 10: "));
    assert!(case_message(1234567, None, None, None).starts_with("test case 1234567: "));
    let max = format!("test case {}: ", usize::MAX);
    assert!(case_message(usize::MAX, None, None, None).starts_with(&max));
}

#[test]
fn describe_case_pretty_prints_values() {
    let text = describe_case(&"in", &vec![1u8, 2], &Some(3i32), 4);
    assert_eq!(
        text,
        "test case 4: assertion failed for input `\"in\"`\n\
         \texpected `[\n    1,\n    2,\n]`\n\
         \tresult `Some(\n    3,\n)`\n\n"
    );
}

#[test]
fn describe_case_falls_back_when_rendering_fails() {
    let text = describe_case(&1u8, &Unprintable, &2u8, 3);
    assert_eq!(text, "test case 3: assertion failed, unable to print message\n\n");
}

#[test]
fn report_keeps_other_records_after_a_rendering_fault() {
    let fails = vec![(1u8, Unprintable, 2u8, 1), (5u8, Unprintable, 6u8, 4)];
    let report = report_fails(fails).unwrap_err();
    assert_eq!(
        report,
        "One or more assertions failed:\n\
         test case 1: assertion failed, unable to print message\n\n\
         test case 4: assertion failed, unable to print message\n\n"
    );
}

#[test]
fn report_lists_records_in_order() {
    let fails = vec![("x", "y", "z", 3), ("p", "q", "r", 1)];
    let report = report_fails(fails).unwrap_err();
    assert!(report.starts_with("One or more assertions failed:\n"));
    let third = report.find("test case 3:").unwrap();
    let first = report.find("test case 1:").unwrap();
    assert!(third < first);
}

#[test]
fn empty_report_is_success() {
    let fails: Vec<(u8, u8, u8, usize)> = Vec::new();
    assert_eq!(report_fails(fails), Ok(()));
}

#[test]
fn report_of_rendered_records() {
    let fails = vec![
        ("input string", "expected string", "", 1),
        ("hello world!", "hello papa!", "hello mom!", 2),
    ];
    let report = report_fails(fails).unwrap_err();
    assert_eq!(
        report,
        "One or more assertions failed:\n\
         test case 1: assertion failed for input `\"input string\"`\n\
         \texpected `\"expected string\"`\n\
         \tresult `\"\"`\n\n\
         test case 2: assertion failed for input `\"hello world!\"`\n\
         \texpected `\"hello papa!\"`\n\
         \tresult `\"hello mom!\"`\n\n"
    );
}

#[test]
fn report_mixes_rendered_and_fallback_records() {
    let fails = vec![(1u8, None, 2u8, 1), (3u8, Some(Unprintable), 4u8, 2), (5u8, None, 6u8, 3)];
    let report = report_fails(fails).unwrap_err();
    assert_eq!(
        report,
        "One or more assertions failed:\n\
         test case 1: assertion failed for input `1`\n\
         \texpected `None`\n\
         \tresult `2`\n\n\
         test case 2: assertion failed, unable to print message\n\n\
         test case 3: assertion failed for input `5`\n\
         \texpected `None`\n\
         \tresult `6`\n\n"
    );
}

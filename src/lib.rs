//! Table-driven test cases: run a function under test over a list of
//! (input, expected) pairs, collect every failing case, and turn the failures
//! into one consolidated report.

pub mod report;
pub mod runner;

pub use report::{case_message, describe_case, report_fails};
pub use runner::{collect_fails, collect_fails_eq, first_fail};

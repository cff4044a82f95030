use std::fmt::Debug;
use std::fmt::Write;
use vstd::prelude::*;
use vstd::string::StringExecFns;

use crate::runner::{all_pass, case_fails, is_run_outcome, lemma_case_ids};

verus! {

/// The decimal digit `d` as a character.
pub open spec fn digit_char(d: nat) -> char {
    seq!['0', '1', '2', '3', '4', '5', '6', '7', '8', '9'][d as int]
}

/// The decimal notation of `n`, without leading zeros.
pub open spec fn decimal(n: nat) -> Seq<char>
    decreases n,
{
    if n < 10 {
        seq![digit_char(n)]
    } else {
        decimal(n / 10).push(digit_char(n % 10))
    }
}

/// The first line of every report.
pub open spec fn report_head() -> Seq<char> {
    "One or more assertions failed:\n"@
}

/// The text of one failure record with case id `id`. `rendered` holds the debug
/// renderings of its input, expected value and result, or `None` where one of
/// them could not be rendered.
pub open spec fn case_text(id: nat, rendered: Option<(Seq<char>, Seq<char>, Seq<char>)>) -> Seq<
    char,
> {
    match rendered {
        Some((input, expected, result)) => "test case "@ + decimal(id)
            + ": assertion failed for input `"@ + input + "`\n\texpected `"@ + expected
            + "`\n\tresult `"@ + result + "`\n\n"@,
        None => "test case "@ + decimal(id) + ": assertion failed, unable to print message\n\n"@,
    }
}

fn digit_text(d: usize) -> (r: &'static str)
    requires
        d < 10,
    ensures
        r@ == seq![digit_char(d as nat)],
{
    if d == 0 {
        proof { reveal_strlit("0"); }
        "0"
    } else if d == 1 {
        proof { reveal_strlit("1"); }
        "1"
    } else if d == 2 {
        proof { reveal_strlit("2"); }
        "2"
    } else if d == 3 {
        proof { reveal_strlit("3"); }
        "3"
    } else if d == 4 {
        proof { reveal_strlit("4"); }
        "4"
    } else if d == 5 {
        proof { reveal_strlit("5"); }
        "5"
    } else if d == 6 {
        proof { reveal_strlit("6"); }
        "6"
    } else if d == 7 {
        proof { reveal_strlit("7"); }
        "7"
    } else if d == 8 {
        proof { reveal_strlit("8"); }
        "8"
    } else {
        proof { reveal_strlit("9"); }
        "9"
    }
}

/// Appends the decimal notation of `n` to `out`.
fn push_decimal(out: &mut String, n: usize)
    ensures
        final(out)@ == old(out)@ + decimal(n as nat),
    decreases n,
{
    if n >= 10 {
        push_decimal(out, n / 10);
    }
    out.append(digit_text(n % 10));
    assert(decimal(n as nat) == if n < 10 {
        seq![digit_char(n as nat)]
    } else {
        decimal((n / 10) as nat) + seq![digit_char((n % 10) as nat)]
    });
}

/// The renderings of a record's input, expected value and result, where all
/// three could be rendered.
pub open spec fn renderings(
    input: Option<String>,
    expected: Option<String>,
    result: Option<String>,
) -> Option<(Seq<char>, Seq<char>, Seq<char>)> {
    if input is Some && expected is Some && result is Some {
        Some((input->Some_0@, expected->Some_0@, result->Some_0@))
    } else {
        None
    }
}

/// The text of the failure record with case id `id`, given the debug renderings
/// of its input, expected value and result, each `None` where it could not be
/// rendered: where one is missing, the text says that the message could not be
/// printed.
pub fn case_message(
    id: usize,
    input: Option<String>,
    expected: Option<String>,
    result: Option<String>,
) -> (r: String)
    ensures
        r@ == case_text(id as nat, renderings(input, expected, result)),
{
    let mut text = String::from_str("test case ");
    push_decimal(&mut text, id);
    match (input, expected, result) {
        (Some(input), Some(expected), Some(result)) => {
            text.append(": assertion failed for input `");
            text.append(input.as_str());
            text.append("`\n\texpected `");
            text.append(expected.as_str());
            text.append("`\n\tresult `");
            text.append(result.as_str());
            text.append("`\n\n");
        },
        _ => {
            text.append(": assertion failed, unable to print message\n\n");
        },
    }
    text
}

/// Relies on std's `Debug` formatting in its alternate, pretty-printed form
/// (`{:#?}`): the text of `v`, or `None` where the type's formatter reports an
/// error. The text depends on each type's own `Debug` impl, so nothing is
/// stated of it.
#[verifier::external_body]
fn debug_text<T: Debug>(v: &T) -> (r: Option<String>) {
    let mut text = String::new();
    match write!(text, "{:#?}", v) {
        Ok(()) => Some(text),
        Err(_) => None,
    }
}

/// `text` is the text of a failure record with case id `id`, for some renderings
/// of its values (or for none, where one of them could not be rendered).
pub open spec fn is_case_text(id: nat, text: Seq<char>) -> bool {
    exists|rendered: Option<(Seq<char>, Seq<char>, Seq<char>)>| text == case_text(id, rendered)
}

/// The text of a failure record: its input, expected value and result rendered
/// with their `Debug` formatting, or the fallback line where one of them fails
/// to render.
pub fn describe_case<I: Debug, E: Debug, R: Debug>(
    input: &I,
    expected: &E,
    result: &R,
    id: usize,
) -> (r: String)
    ensures
        is_case_text(id as nat, r@),
{
    case_message(id, debug_text(input), debug_text(expected), debug_text(result))
}

/// The texts joined in order.
pub open spec fn joined(texts: Seq<Seq<char>>) -> Seq<char>
    decreases texts.len(),
{
    if texts.len() == 0 {
        Seq::empty()
    } else {
        joined(texts.drop_last()) + texts.last()
    }
}

/// `msg` is the head line followed by `texts` in order, where `texts` holds a
/// text for each record of `fails`, with that record's case id.
pub open spec fn is_report_text<I, E, R>(
    fails: Seq<(I, E, R, usize)>,
    texts: Seq<Seq<char>>,
    msg: Seq<char>,
) -> bool {
    &&& texts.len() == fails.len()
    &&& forall|k: int| 0 <= k < fails.len() ==> is_case_text(#[trigger] fails[k].3 as nat, texts[k])
    &&& msg == report_head() + joined(texts)
}

/// `msg` is a report of `fails`: the head line, then the text of each failure
/// record, in order.
pub open spec fn is_report_of<I, E, R>(fails: Seq<(I, E, R, usize)>, msg: Seq<char>) -> bool {
    exists|texts: Seq<Seq<char>>| is_report_text(fails, texts, msg)
}

/// The outcome of reporting `fails`: success where there is no failure, else
/// the report of all of them, which the caller raises as a test failure.
pub open spec fn is_report_outcome<I, E, R>(fails: Seq<(I, E, R, usize)>, r: Result<(), String>) -> bool {
    match r {
        Ok(()) => fails.len() == 0,
        Err(msg) => fails.len() > 0 && is_report_of(fails, msg@),
    }
}

/// Reports the failure records of a run: `Ok` where there are none, else `Err`
/// with one message that describes every record, in order.
pub fn report_fails<I: Debug, E: Debug, R: Debug>(fails: Vec<(I, E, R, usize)>) -> (r: Result<(), String>)
    ensures
        is_report_outcome(fails@, r),
{
    if fails.len() == 0 {
        return Ok(());
    }
    let mut report = String::from_str("One or more assertions failed:\n");
    let ghost mut texts: Seq<Seq<char>> = Seq::empty();
    let mut i: usize = 0;
    while i < fails.len()
        invariant
            i <= fails@.len(),
            texts.len() == i,
            forall|k: int| 0 <= k < i ==> is_case_text(#[trigger] fails@[k].3 as nat, texts[k]),
            report@ == report_head() + joined(texts),
        decreases fails@.len() - i,
    {
        let record = &fails[i];
        let text = describe_case(&record.0, &record.1, &record.2, record.3);
        let ghost prev = texts;
        report.append(text.as_str());
        proof {
            texts = texts.push(text@);
            assert(texts.drop_last() == prev);
        }
        i = i + 1;
    }
    assert(is_report_text(fails@, texts, report@));
    Err(report)
}

/// Where every case passes, reporting the failures of the run succeeds.
pub proof fn lemma_passing_run_reports_success<I, E, R, T, C>(
    cases: Seq<(I, E)>,
    test: T,
    check: C,
    out: Seq<(I, E, R, usize)>,
    r: Result<(), String>,
)
    where
        T: Fn(&I) -> R,
        C: Fn(&R, &E) -> bool,
    requires
        cases.len() <= usize::MAX,
        all_pass(cases, test, check),
        is_run_outcome(cases, test, check, out),
        is_report_outcome(out, r),
    ensures
        r is Ok,
{
    lemma_case_ids(cases, test, check, out);
    if out.len() > 0 {
        let j = out[0].3 - 1;
        assert(test.ensures((&cases[j].0,), out[0].2));
        assert(check.ensures((&out[0].2, &cases[j].1), false));
    }
}

/// Where some case fails, reporting the failures of the run fails with a
/// message that starts with the head line.
pub proof fn lemma_failing_run_reports_failure<I, E, R, T, C>(
    cases: Seq<(I, E)>,
    test: T,
    check: C,
    j: int,
    out: Seq<(I, E, R, usize)>,
    r: Result<(), String>,
)
    where
        T: Fn(&I) -> R,
        C: Fn(&R, &E) -> bool,
    requires
        cases.len() <= usize::MAX,
        case_fails(cases, test, check, j),
        is_run_outcome(cases, test, check, out),
        is_report_outcome(out, r),
    ensures
        r is Err,
        r->Err_0@.len() >= report_head().len(),
        r->Err_0@.subrange(0, report_head().len() as int) == report_head(),
{
    lemma_case_ids(cases, test, check, out);
    assert(out.len() > 0);
    if let Err(msg) = r {
        let texts = choose|texts: Seq<Seq<char>>| is_report_text(out, texts, msg@);
        assert(msg@.subrange(0, report_head().len() as int) == report_head());
    }
}

} // verus!

use vstd::prelude::*;
use vstd::std_specs::cmp::PartialEqSpec;

verus! {

/// The failure records of a run, given the result `results[j]` that the function
/// under test produced for case `j` and the verdict `oks[j]` of the check on it.
/// One record `(input, expected, result, j + 1)` per failing case, in case order.
pub open spec fn failures<I, E, R>(
    cases: Seq<(I, E)>,
    results: Seq<R>,
    oks: Seq<bool>,
) -> Seq<(I, E, R, usize)>
    decreases cases.len(),
{
    if cases.len() == 0 {
        Seq::empty()
    } else {
        let n = (cases.len() - 1) as int;
        let earlier = failures(cases.drop_last(), results.take(n), oks.take(n));
        if oks[n] {
            earlier
        } else {
            earlier.push((cases[n].0, cases[n].1, results[n], (n + 1) as usize))
        }
    }
}

/// `results` holds, for each case, a value that `test` may return for its input.
pub open spec fn is_test_trace<I, E, R, T>(cases: Seq<(I, E)>, test: T, results: Seq<R>) -> bool
    where
        T: Fn(&I) -> R,
{
    &&& results.len() == cases.len()
    &&& forall|j: int|
        0 <= j < cases.len() ==> #[trigger] test.ensures((&cases[j].0,), results[j])
}

/// `results` and `oks` trace a run of `test` and `check` over `cases`: for each
/// case, a result that `test` may return for its input and a verdict that
/// `check` may return on that result and the expected value.
pub open spec fn is_run_trace<I, E, R, T, C>(
    cases: Seq<(I, E)>,
    test: T,
    check: C,
    results: Seq<R>,
    oks: Seq<bool>,
) -> bool
    where
        T: Fn(&I) -> R,
        C: Fn(&R, &E) -> bool,
{
    &&& is_test_trace(cases, test, results)
    &&& oks.len() == cases.len()
    &&& forall|j: int|
        0 <= j < cases.len() ==> #[trigger] check.ensures((&results[j], &cases[j].1), oks[j])
}

/// `out` is what a run of `test` and `check` over `cases` can produce: the
/// failure records of some trace of the run.
pub open spec fn is_run_outcome<I, E, R, T, C>(
    cases: Seq<(I, E)>,
    test: T,
    check: C,
    out: Seq<(I, E, R, usize)>,
) -> bool
    where
        T: Fn(&I) -> R,
        C: Fn(&R, &E) -> bool,
{
    exists|results: Seq<R>, oks: Seq<bool>|
        #![trigger failures(cases, results, oks)]
        is_run_trace(cases, test, check, results, oks) && out == failures(cases, results, oks)
}

/// A trace of the run whose failure records are `out`, where `out` is an
/// outcome of the run.
pub open spec fn run_witness<I, E, R, T, C>(
    cases: Seq<(I, E)>,
    test: T,
    check: C,
    out: Seq<(I, E, R, usize)>,
) -> (Seq<R>, Seq<bool>)
    where
        T: Fn(&I) -> R,
        C: Fn(&R, &E) -> bool,
{
    choose|results: Seq<R>, oks: Seq<bool>|
        is_run_trace(cases, test, check, results, oks) && out == failures(cases, results, oks)
}

/// `test` accepts the input of every case, and `check` accepts every result
/// that `test` may return for it, with the case's expected value.
pub open spec fn accepts_cases<I, E, R, T, C>(cases: Seq<(I, E)>, test: T, check: C) -> bool
    where
        T: Fn(&I) -> R,
        C: Fn(&R, &E) -> bool,
{
    &&& forall|j: int| 0 <= j < cases.len() ==> #[trigger] test.requires((&cases[j].0,))
    &&& forall|j: int, res: R|
        0 <= j < cases.len() && #[trigger] test.ensures((&cases[j].0,), res) ==> check.requires(
            (&res, &cases[j].1),
        )
}

/// One more case of a run: the trace grows by its result and verdict, and a
/// failing verdict adds its record with the case's 1-based position as id.
proof fn lemma_run_step<I, E, R, T, C>(
    cases: Seq<(I, E)>,
    test: T,
    check: C,
    results: Seq<R>,
    oks: Seq<bool>,
    result: R,
    ok: bool,
)
    where
        T: Fn(&I) -> R,
        C: Fn(&R, &E) -> bool,
    requires
        results.len() < cases.len(),
        is_run_trace(cases.take(results.len() as int), test, check, results, oks),
        test.ensures((&cases[results.len() as int].0,), result),
        check.ensures((&result, &cases[results.len() as int].1), ok),
    ensures
        ({
            let k = results.len() as int;
            let before = failures(cases.take(k), results, oks);
            &&& is_run_trace(cases.take(k + 1), test, check, results.push(result), oks.push(ok))
            &&& failures(cases.take(k + 1), results.push(result), oks.push(ok)) == if ok {
                before
            } else {
                before.push((cases[k].0, cases[k].1, result, (k + 1) as usize))
            }
        }),
{
    let k = results.len() as int;
    let done = cases.take(k);
    let next = cases.take(k + 1);
    let rs = results.push(result);
    let os = oks.push(ok);
    assert(next.drop_last() == done);
    assert(rs.take(k) == results);
    assert(os.take(k) == oks);
    assert forall|j: int| 0 <= j < next.len() implies #[trigger] test.ensures(
        (&next[j].0,),
        rs[j],
    ) && check.ensures((&rs[j], &next[j].1), os[j]) by {
        if j < k {
            assert(next[j] == done[j]);
            assert(test.ensures((&done[j].0,), results[j]));
            assert(check.ensures((&results[j], &done[j].1), oks[j]));
        }
    }
}

/// Runs `test` on the input of every case, in order, and checks each result
/// against the case's expected value with `check`. Returns one record
/// `(input, expected, result, case_id)` for each case on which `check` returned
/// `false`, where `case_id` is the case's 1-based position among all cases.
pub fn collect_fails<I, E, R, T, C>(cases: Vec<(I, E)>, test: T, check: C) -> (r: Vec<
    (I, E, R, usize),
>)
    where
        T: Fn(&I) -> R,
        C: Fn(&R, &E) -> bool,
    requires
        accepts_cases(cases@, test, check),
    ensures
        is_run_outcome(cases@, test, check, r@),
{
    let ghost all = cases@;
    let n: usize = cases.len();
    let ghost mut results: Seq<R> = Seq::empty();
    let ghost mut oks: Seq<bool> = Seq::empty();
    let mut fails: Vec<(I, E, R, usize)> = Vec::new();
    let mut rest = cases;
    let mut case_id: usize = 0;
    while case_id < n
        invariant
            n == all.len(),
            case_id <= n,
            rest@ == all.skip(case_id as int),
            accepts_cases(all, test, check),
            is_run_trace(all.take(case_id as int), test, check, results, oks),
            fails@ == failures(all.take(case_id as int), results, oks),
        decreases n - case_id,
    {
        let (input, expected) = rest.remove(0);
        proof {
            assert(all[case_id as int] == (input, expected));
            assert(all.skip(case_id + 1) == all.skip(case_id as int).skip(1));
        }
        let result = test(&input);
        let ok = check(&result, &expected);
        proof {
            lemma_run_step(all, test, check, results, oks, result, ok);
            results = results.push(result);
            oks = oks.push(ok);
        }
        case_id = case_id + 1;
        if !ok {
            fails.push((input, expected, result, case_id));
        }
    }
    assert(all.take(n as int) == all);
    fails
}

/// The fail-fast form of `collect_fails`: runs the cases in order and stops at
/// the first one on which `check` returns `false`, returning its record
/// `(input, expected, result, case_id)`. Returns `None` where every case passes.
pub fn first_fail<I, E, R, T, C>(cases: Vec<(I, E)>, test: T, check: C) -> (r: Option<
    (I, E, R, usize),
>)
    where
        T: Fn(&I) -> R,
        C: Fn(&R, &E) -> bool,
    requires
        accepts_cases(cases@, test, check),
    ensures
        r is None ==> is_run_outcome(cases@, test, check, Seq::empty()),
        r is Some ==> {
            let fail = r->Some_0;
            &&& 1 <= fail.3 <= cases@.len()
            &&& is_run_outcome(cases@.take(fail.3 as int), test, check, seq![fail])
        },
{
    let ghost all = cases@;
    let n: usize = cases.len();
    let ghost mut results: Seq<R> = Seq::empty();
    let ghost mut oks: Seq<bool> = Seq::empty();
    let mut rest = cases;
    let mut case_id: usize = 0;
    while case_id < n
        invariant
            all == cases@,
            n == all.len(),
            case_id <= n,
            rest@ == all.skip(case_id as int),
            accepts_cases(all, test, check),
            is_run_trace(all.take(case_id as int), test, check, results, oks),
            failures(all.take(case_id as int), results, oks) == Seq::<(I, E, R, usize)>::empty(),
        decreases n - case_id,
    {
        let (input, expected) = rest.remove(0);
        proof {
            assert(all[case_id as int] == (input, expected));
            assert(all.skip(case_id + 1) == all.skip(case_id as int).skip(1));
        }
        let result = test(&input);
        let ok = check(&result, &expected);
        proof {
            lemma_run_step(all, test, check, results, oks, result, ok);
            results = results.push(result);
            oks = oks.push(ok);
        }
        case_id = case_id + 1;
        if !ok {
            let fail = (input, expected, result, case_id);
            assert(failures(all.take(case_id as int), results, oks) == seq![fail]);
            return Some(fail);
        }
    }
    assert(all.take(n as int) == all);
    None
}

/// `ok` is a verdict that `==` may return on `r` and `e`: for a type whose `==`
/// follows its specification, `ok` says whether the two are equal.
pub open spec fn equality_verdict<R: PartialEq>(r: &R, e: &R, ok: bool) -> bool {
    R::obeys_eq_spec() ==> ok == r.eq_spec(e)
}

/// `results` and `oks` trace a run of `test` over `cases` in which each result
/// is checked against the expected value with `==`.
pub open spec fn is_eq_trace<I, R, T>(
    cases: Seq<(I, R)>,
    test: T,
    results: Seq<R>,
    oks: Seq<bool>,
) -> bool
    where
        R: PartialEq,
        T: Fn(&I) -> R,
{
    &&& is_test_trace(cases, test, results)
    &&& oks.len() == cases.len()
    &&& forall|j: int|
        0 <= j < cases.len() ==> #[trigger] equality_verdict(&results[j], &cases[j].1, oks[j])
}

/// `out` is what a run of `test` over `cases` can produce when each result is
/// checked against the expected value with `==`.
pub open spec fn is_eq_run_outcome<I, R, T>(
    cases: Seq<(I, R)>,
    test: T,
    out: Seq<(I, R, R, usize)>,
) -> bool
    where
        R: PartialEq,
        T: Fn(&I) -> R,
{
    exists|results: Seq<R>, oks: Seq<bool>|
        #![trigger failures(cases, results, oks)]
        is_eq_trace(cases, test, results, oks) && out == failures(cases, results, oks)
}

/// The shorthand of `collect_fails` for a result type that is also the expected
/// type: each result is checked against the expected value with `==`.
pub fn collect_fails_eq<I, R, T>(cases: Vec<(I, R)>, test: T) -> (r: Vec<(I, R, R, usize)>)
    where
        R: PartialEq,
        T: Fn(&I) -> R,
    requires
        forall|j: int| 0 <= j < cases@.len() ==> #[trigger] test.requires((&cases@[j].0,)),
    ensures
        is_eq_run_outcome(cases@, test, r@),
{
    let ghost all = cases@;
    let equal = |r: &R, e: &R| -> (ok: bool)
        ensures
            equality_verdict(r, e, ok),
        { r.eq(e) };
    let fails = collect_fails(cases, test, equal);
    proof {
        lemma_equality_outcome(all, test, equal, fails@);
    }
    fails
}

/// A run with a check that returns only verdicts `==` may return is a run
/// checked with `==`.
proof fn lemma_equality_outcome<I, R, T, C>(
    cases: Seq<(I, R)>,
    test: T,
    check: C,
    out: Seq<(I, R, R, usize)>,
)
    where
        R: PartialEq,
        T: Fn(&I) -> R,
        C: Fn(&R, &R) -> bool,
    requires
        forall|r: &R, e: &R, ok: bool| #[trigger]
            check.ensures((r, e), ok) ==> equality_verdict(r, e, ok),
    ensures
        is_run_outcome(cases, test, check, out) ==> is_eq_run_outcome(cases, test, out),
{
    if is_run_outcome(cases, test, check, out) {
        let (results, oks) = run_witness(cases, test, check, out);
        assert forall|j: int| 0 <= j < cases.len() implies #[trigger] equality_verdict(
            &results[j],
            &cases[j].1,
            oks[j],
        ) by {
            assert(check.ensures((&results[j], &cases[j].1), oks[j]));
        }
        assert(failures(cases, results, oks) == out);
    }
}

/// Checking with `==` by default is the same as passing a check that returns
/// exactly the verdicts `==` may return.
pub proof fn lemma_default_equality<I, R, T, C>(
    cases: Seq<(I, R)>,
    test: T,
    check: C,
    out: Seq<(I, R, R, usize)>,
)
    where
        R: PartialEq,
        T: Fn(&I) -> R,
        C: Fn(&R, &R) -> bool,
    requires
        forall|r: &R, e: &R, ok: bool| #[trigger]
            check.ensures((r, e), ok) <==> equality_verdict(r, e, ok),
    ensures
        is_run_outcome(cases, test, check, out) <==> is_eq_run_outcome(cases, test, out),
{
    lemma_equality_outcome(cases, test, check, out);
    if is_eq_run_outcome(cases, test, out) {
        let (results, oks) = choose|results: Seq<R>, oks: Seq<bool>|
            is_eq_trace(cases, test, results, oks) && out == failures(cases, results, oks);
        assert forall|j: int| 0 <= j < cases.len() implies #[trigger] check.ensures(
            (&results[j], &cases[j].1),
            oks[j],
        ) by {
            assert(equality_verdict(&results[j], &cases[j].1, oks[j]));
        }
        assert(failures(cases, results, oks) == out);
    }
}

/// What the failure records of a run hold: at most one per case; each names by
/// `case_id` the 1-based position of a failing case and carries its input,
/// expected value and result; the ids strictly increase; and every failing case
/// is listed.
proof fn lemma_failures_shape<I, E, R>(cases: Seq<(I, E)>, results: Seq<R>, oks: Seq<bool>)
    requires
        cases.len() <= usize::MAX,
        results.len() == cases.len(),
        oks.len() == cases.len(),
    ensures
        ({
            let out = failures(cases, results, oks);
            &&& out.len() <= cases.len()
            &&& forall|i: int|
                #![trigger out[i]]
                0 <= i < out.len() ==> {
                    let j = out[i].3 - 1;
                    &&& 0 <= j < cases.len()
                    &&& out[i].0 == cases[j].0
                    &&& out[i].1 == cases[j].1
                    &&& out[i].2 == results[j]
                    &&& !oks[j]
                }
            &&& forall|i: int, k: int| 0 <= i < k < out.len() ==> out[i].3 < out[k].3
            &&& forall|j: int|
                0 <= j < cases.len() && !oks[j] ==> exists|i: int|
                    0 <= i < out.len() && #[trigger] out[i].3 == j + 1
        }),
    decreases cases.len(),
{
    if cases.len() > 0 {
        let n = cases.len() - 1;
        lemma_failures_shape(cases.drop_last(), results.take(n), oks.take(n));
        let earlier = failures(cases.drop_last(), results.take(n), oks.take(n));
        let out = failures(cases, results, oks);
        assert forall|j: int| 0 <= j < cases.len() && !oks[j] implies exists|i: int|
            0 <= i < out.len() && #[trigger] out[i].3 == j + 1 by {
            if j < n {
                assert(oks.take(n)[j] == oks[j]);
                let i = choose|i: int| 0 <= i < earlier.len() && #[trigger] earlier[i].3 == j + 1;
                assert(out[i] == earlier[i]);
            } else {
                assert(out[out.len() - 1].3 == j + 1);
            }
        }
    }
}

/// Every case passes: whatever `test` returns for its input, `check` returns
/// `true` on it.
pub open spec fn all_pass<I, E, R, T, C>(cases: Seq<(I, E)>, test: T, check: C) -> bool
    where
        T: Fn(&I) -> R,
        C: Fn(&R, &E) -> bool,
{
    forall|j: int, res: R, ok: bool|
        0 <= j < cases.len() && #[trigger] test.ensures((&cases[j].0,), res) && #[trigger]
            check.ensures((&res, &cases[j].1), ok) ==> ok
}

/// Case `j` fails: whatever `test` returns for its input, `check` returns
/// `false` on it.
pub open spec fn case_fails<I, E, R, T, C>(cases: Seq<(I, E)>, test: T, check: C, j: int) -> bool
    where
        T: Fn(&I) -> R,
        C: Fn(&R, &E) -> bool,
{
    &&& 0 <= j < cases.len()
    &&& forall|res: R, ok: bool|
        #[trigger] test.ensures((&cases[j].0,), res) && #[trigger] check.ensures(
            (&res, &cases[j].1),
            ok,
        ) ==> !ok
}

/// The case ids of a run's failure records strictly increase, and each is the
/// 1-based position of a failing case among all cases (not among the failures):
/// the record carries that case's input and expected value, and a result that
/// `test` may return for the input and on which `check` may return `false`.
/// Every failing case has a record with its position as id, and there are no
/// more records than cases.
pub proof fn lemma_case_ids<I, E, R, T, C>(
    cases: Seq<(I, E)>,
    test: T,
    check: C,
    out: Seq<(I, E, R, usize)>,
)
    where
        T: Fn(&I) -> R,
        C: Fn(&R, &E) -> bool,
    requires
        cases.len() <= usize::MAX,
        is_run_outcome(cases, test, check, out),
    ensures
        out.len() <= cases.len(),
        forall|i: int, k: int| 0 <= i < k < out.len() ==> out[i].3 < out[k].3,
        forall|i: int|
            #![trigger out[i]]
            0 <= i < out.len() ==> {
                let j = out[i].3 - 1;
                &&& 0 <= j < cases.len()
                &&& out[i].0 == cases[j].0
                &&& out[i].1 == cases[j].1
                &&& test.ensures((&cases[j].0,), out[i].2)
                &&& check.ensures((&out[i].2, &cases[j].1), false)
            },
        forall|j: int|
            case_fails(cases, test, check, j) ==> exists|i: int|
                0 <= i < out.len() && #[trigger] out[i].3 == j + 1,
{
    let (results, oks) = run_witness(cases, test, check, out);
    lemma_failures_shape(cases, results, oks);
    assert forall|i: int| 0 <= i < out.len() implies {
        let j = out[i].3 - 1;
        &&& test.ensures((&cases[j].0,), #[trigger] out[i].2)
        &&& check.ensures((&out[i].2, &cases[j].1), false)
    } by {
        let j = out[i].3 - 1;
        assert(test.ensures((&cases[j].0,), results[j]));
        assert(check.ensures((&results[j], &cases[j].1), oks[j]));
    }
    assert forall|j: int| case_fails(cases, test, check, j) implies exists|i: int|
        0 <= i < out.len() && #[trigger] out[i].3 == j + 1 by {
        assert(test.ensures((&cases[j].0,), results[j]));
        assert(check.ensures((&results[j], &cases[j].1), oks[j]));
    }
}

/// A function that returns at most one value for each argument.
pub open spec fn test_is_pure<I, R, T: Fn(&I) -> R>(test: T) -> bool {
    forall|i: &I, r1: R, r2: R|
        #[trigger] test.ensures((i,), r1) && #[trigger] test.ensures((i,), r2) ==> r1 == r2
}

/// A check that returns at most one verdict for each result and expected value.
pub open spec fn check_is_pure<R, E, C: Fn(&R, &E) -> bool>(check: C) -> bool {
    forall|r: &R, e: &E, b1: bool, b2: bool|
        #[trigger] check.ensures((r, e), b1) && #[trigger] check.ensures((r, e), b2) ==> b1
            == b2
}

/// Two runs over equal case sequences with a pure `test` and a pure `check`
/// give the same failure records.
pub proof fn lemma_run_is_repeatable<I, E, R, T, C>(
    cases1: Seq<(I, E)>,
    cases2: Seq<(I, E)>,
    test: T,
    check: C,
    out1: Seq<(I, E, R, usize)>,
    out2: Seq<(I, E, R, usize)>,
)
    where
        T: Fn(&I) -> R,
        C: Fn(&R, &E) -> bool,
    requires
        cases1 == cases2,
        test_is_pure(test),
        check_is_pure(check),
        is_run_outcome(cases1, test, check, out1),
        is_run_outcome(cases2, test, check, out2),
    ensures
        out1 == out2,
{
    let (results1, oks1) = run_witness(cases1, test, check, out1);
    let (results2, oks2) = run_witness(cases2, test, check, out2);
    assert forall|j: int| 0 <= j < cases1.len() implies #[trigger] results1[j] == results2[j] by {
        assert(test.ensures((&cases1[j].0,), results1[j]));
        assert(test.ensures((&cases2[j].0,), results2[j]));
    }
    assert forall|j: int| 0 <= j < cases1.len() implies #[trigger] oks1[j] == oks2[j] by {
        assert(results1[j] == results2[j]);
        assert(check.ensures((&results1[j], &cases1[j].1), oks1[j]));
        assert(check.ensures((&results2[j], &cases2[j].1), oks2[j]));
    }
    assert(results1 == results2);
    assert(oks1 == oks2);
}

} // verus!

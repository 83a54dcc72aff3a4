//! The orchestrator: planning the submission sequence and turning the
//! execution service's outputs into verdicts.
//!
//! For every exercise in declared order, its solution file is bound by name;
//! for every test of the exercise and every input of the test, one request is
//! submitted; the output that comes back is compared against every expected
//! output of the test, yielding the verdicts in input-major, output-minor
//! order. A missing solution file aborts the run at that exercise; verdicts
//! already produced stand.

use vstd::prelude::*;
use crate::model::Exercise;
use crate::model::ExerciseView;
use crate::model::GradeError;
use crate::model::Module;
use crate::model::Runtime;
use crate::model::RuntimeView;
use crate::model::SolutionFile;
use crate::model::SolutionFileView;
use crate::model::Test;
use crate::model::TestView;
use crate::model::Verdict;
use crate::model::VerdictView;
use crate::select::clone_strings;
use crate::select::find_solution_file;
use crate::select::first_file;
use crate::select::has_file;
use crate::text::trimmed;
use crate::text::trimmed_eq;

verus! {

/// One unit of work for the execution service: the resolved runtime, the
/// solution file, one input to feed on stdin, and what the answer will be
/// compared against.
pub struct PlannedSubmission {
    pub language: String,
    pub version: String,
    pub file_name: String,
    pub file_content: String,
    pub stdin: String,
    pub test_name: String,
    pub expected: Vec<String>,
}

/// Mathematical view of a [`PlannedSubmission`].
pub struct SubmissionView {
    pub language: Seq<char>,
    pub version: Seq<char>,
    pub file_name: Seq<char>,
    pub file_content: Seq<char>,
    pub stdin: Seq<char>,
    pub test_name: Seq<char>,
    pub expected: Seq<Seq<char>>,
}

impl View for PlannedSubmission {
    type V = SubmissionView;

    open spec fn view(&self) -> SubmissionView {
        SubmissionView {
            language: self.language@,
            version: self.version@,
            file_name: self.file_name@,
            file_content: self.file_content@,
            stdin: self.stdin@,
            test_name: self.test_name@,
            expected: self.expected.deep_view(),
        }
    }
}

impl DeepView for PlannedSubmission {
    type V = SubmissionView;

    open spec fn deep_view(&self) -> SubmissionView {
        self.view()
    }
}

/// The submission a test's `i`-th input gives rise to.
pub open spec fn submission_for(
    file: SolutionFileView,
    rt: RuntimeView,
    t: TestView,
    i: int,
) -> SubmissionView {
    SubmissionView {
        language: rt.language,
        version: rt.version,
        file_name: file.name,
        file_content: file.content,
        stdin: t.input[i],
        test_name: t.test_name,
        expected: t.output,
    }
}

/// The submissions of one test: one per input, in declared order.
pub open spec fn test_plan(file: SolutionFileView, rt: RuntimeView, t: TestView) -> Seq<
    SubmissionView,
> {
    Seq::new(t.input.len(), |i: int| submission_for(file, rt, t, i))
}

/// The submissions of a sequence of tests, in declared order.
pub open spec fn tests_plan(file: SolutionFileView, rt: RuntimeView, tests: Seq<TestView>) -> Seq<
    SubmissionView,
>
    decreases tests.len(),
{
    if tests.len() == 0 {
        Seq::empty()
    } else {
        test_plan(file, rt, tests[0]) + tests_plan(file, rt, tests.drop_first())
    }
}

/// The submissions of one exercise, against its first matching file.
pub open spec fn exercise_plan(
    e: ExerciseView,
    files: Seq<SolutionFileView>,
    rt: RuntimeView,
) -> Seq<SubmissionView> {
    tests_plan(files[first_file(files, e.name)], rt, e.test)
}

/// Plans every submission of one exercise: for each test in declared order,
/// one submission per declared input, all against the exercise's solution
/// file and the resolved runtime. Fails, yielding no submissions, when no
/// loaded file has the exercise's name.
pub fn plan_exercise(e: &Exercise, files: &Vec<SolutionFile>, rt: &Runtime) -> (r: Result<
    Vec<PlannedSubmission>,
    GradeError,
>)
    ensures
        match r {
            Ok(subs) => has_file(files.deep_view(), e.name@) && subs.deep_view() == exercise_plan(
                e@,
                files.deep_view(),
                rt@,
            ),
            Err(err) => err == GradeError::ExerciseFileMissing && !has_file(
                files.deep_view(),
                e.name@,
            ),
        },
{
    let file = match find_solution_file(e.name.as_str(), files) {
        Ok(f) => f,
        Err(err) => {
            return Err(err);
        },
    };
    let ghost fv = file@;
    let ghost rtv = rt@;
    let ghost tests = e@.test;
    let mut subs: Vec<PlannedSubmission> = Vec::new();
    let mut ti: usize = 0;
    proof {
        assert(tests.skip(0) =~= tests);
        assert(subs.deep_view() + tests_plan(fv, rtv, tests) =~= tests_plan(fv, rtv, tests));
    }
    while ti < e.test.len()
        invariant
            0 <= ti <= e.test.len(),
            fv == file@,
            rtv == rt@,
            tests == e@.test,
            tests.len() == e.test.len(),
            tests_plan(fv, rtv, tests) == subs.deep_view() + tests_plan(
                fv,
                rtv,
                tests.skip(ti as int),
            ),
        decreases e.test.len() - ti,
    {
        let t = &e.test[ti];
        let mut one: Vec<PlannedSubmission> = Vec::new();
        let mut ii: usize = 0;
        while ii < t.input.len()
            invariant
                0 <= ii <= t.input.len(),
                fv == file@,
                rtv == rt@,
                one@.len() == ii,
                forall|k: int| 0 <= k < ii ==> one@[k]@ == submission_for(fv, rtv, t@, k),
            decreases t.input.len() - ii,
        {
            let sub = PlannedSubmission {
                language: rt.language.clone(),
                version: rt.version.clone(),
                file_name: file.name.clone(),
                file_content: file.content.clone(),
                stdin: t.input[ii].clone(),
                test_name: t.test_name.clone(),
                expected: clone_strings(&t.output),
            };
            proof {
                assert(t@.input[ii as int] == t.input@[ii as int]@);
                assert(sub@ == submission_for(fv, rtv, t@, ii as int));
            }
            one.push(sub);
            proof {
                assert(one@[ii as int]@ == submission_for(fv, rtv, t@, ii as int));
            }
            ii = ii + 1;
        }
        proof {
            assert forall|k: int| 0 <= k < t@.input.len() implies one.deep_view()[k] == test_plan(
                fv,
                rtv,
                t@,
            )[k] by {
                assert(one.deep_view()[k] == one@[k]@);
            }
            assert(one.deep_view() =~= test_plan(fv, rtv, t@));
            assert(tests.skip(ti as int)[0] == tests[ti as int]);
            assert(tests[ti as int] == t@);
            assert(tests.skip(ti as int).drop_first() =~= tests.skip(ti as int + 1));
            assert(tests_plan(fv, rtv, tests.skip(ti as int)) == test_plan(fv, rtv, t@)
                + tests_plan(fv, rtv, tests.skip(ti as int + 1)));
        }
        let ghost old_subs = subs.deep_view();
        let mut one_moved = one;
        subs.append(&mut one_moved);
        proof {
            assert(subs.deep_view() =~= old_subs + test_plan(fv, rtv, t@));
            assert((old_subs + test_plan(fv, rtv, t@)) + tests_plan(
                fv,
                rtv,
                tests.skip(ti as int + 1),
            ) =~= old_subs + (test_plan(fv, rtv, t@) + tests_plan(
                fv,
                rtv,
                tests.skip(ti as int + 1),
            )));
        }
        ti = ti + 1;
    }
    proof {
        assert(tests.skip(tests.len() as int) =~= Seq::<TestView>::empty());
        assert(subs.deep_view() + Seq::<SubmissionView>::empty() =~= subs.deep_view());
        assert(subs.deep_view() == tests_plan(fv, rtv, tests));
        assert(fv == files.deep_view()[first_file(files.deep_view(), e.name@)]);
    }
    Ok(subs)
}

/// The verdicts one execution output gives rise to: one per expected output
/// of the test, in declared order, each a pass exactly when the trimmed
/// output equals the trimmed expected value.
pub open spec fn output_verdicts(
    test_name: Seq<char>,
    expected: Seq<Seq<char>>,
    actual: Seq<char>,
) -> Seq<VerdictView> {
    Seq::new(
        expected.len(),
        |j: int|
            (VerdictView { test_name: test_name, passed: trimmed(actual) == trimmed(expected[j]) }),
    )
}

/// Compares one execution output against every expected output of a test and
/// returns the verdicts in declared order, each labeled `test_name` and
/// passing exactly when output and expected value agree once trimmed.
pub fn verdicts_for_output(test_name: &String, expected: &Vec<String>, actual: &str) -> (r: Vec<
    Verdict,
>)
    ensures
        r.deep_view() == output_verdicts(test_name@, expected.deep_view(), actual@),
{
    let mut r: Vec<Verdict> = Vec::new();
    let mut j: usize = 0;
    while j < expected.len()
        invariant
            0 <= j <= expected.len(),
            r@.len() == j,
            forall|k: int| 0 <= k < j ==> r@[k]@ == output_verdicts(
                test_name@,
                expected.deep_view(),
                actual@,
            )[k],
        decreases expected.len() - j,
    {
        let passed = trimmed_eq(actual, expected[j].as_str());
        r.push(Verdict { test_name: test_name.clone(), passed });
        proof {
            assert(expected.deep_view()[j as int] == expected@[j as int]@);
            assert(r@[j as int]@ == output_verdicts(test_name@, expected.deep_view(), actual@)[
                j as int
            ]);
        }
        j = j + 1;
    }
    proof {
        assert forall|k: int| 0 <= k < expected@.len() implies r.deep_view()[k] == output_verdicts(
            test_name@,
            expected.deep_view(),
            actual@,
        )[k] by {
            assert(r.deep_view()[k] == r@[k]@);
        }
        assert(r.deep_view() =~= output_verdicts(test_name@, expected.deep_view(), actual@));
    }
    r
}

/// Compares one execution output against a planned submission's expected
/// outputs, labeling the verdicts with the submission's test name.
pub fn verdicts_for_submission(sub: &PlannedSubmission, actual: &str) -> (r: Vec<Verdict>)
    ensures
        r.deep_view() == output_verdicts(sub.test_name@, sub.expected.deep_view(), actual@),
{
    verdicts_for_output(&sub.test_name, &sub.expected, actual)
}

/// The verdicts of one test: for each input in declared order, the verdicts
/// of the corresponding execution output against every expected output.
/// `outs` holds the execution outputs, one per input, in submission order.
pub open spec fn test_verdicts(
    test_name: Seq<char>,
    inputs: Seq<Seq<char>>,
    expected: Seq<Seq<char>>,
    outs: Seq<Seq<char>>,
) -> Seq<VerdictView>
    decreases inputs.len(),
{
    if inputs.len() == 0 {
        Seq::empty()
    } else {
        output_verdicts(test_name, expected, outs[0]) + test_verdicts(
            test_name,
            inputs.drop_first(),
            expected,
            outs.drop_first(),
        )
    }
}

/// How many submissions a sequence of tests gives rise to: one per input.
pub open spec fn tests_request_count(tests: Seq<TestView>) -> nat
    decreases tests.len(),
{
    if tests.len() == 0 {
        0
    } else {
        tests[0].input.len() + tests_request_count(tests.drop_first())
    }
}

/// The verdicts of a sequence of tests, each test consuming one execution
/// output per input from the front of `outs`.
pub open spec fn tests_verdicts(tests: Seq<TestView>, outs: Seq<Seq<char>>) -> Seq<VerdictView>
    decreases tests.len(),
{
    if tests.len() == 0 {
        Seq::empty()
    } else {
        test_verdicts(tests[0].test_name, tests[0].input, tests[0].output, outs) + tests_verdicts(
            tests.drop_first(),
            outs.skip(tests[0].input.len() as int),
        )
    }
}

/// How many submissions a run makes: one per input of every test of every
/// exercise up to, and not including, the first exercise without a matching
/// solution file.
pub open spec fn run_request_count(
    exercises: Seq<ExerciseView>,
    files: Seq<SolutionFileView>,
) -> nat
    decreases exercises.len(),
{
    if exercises.len() == 0 {
        0
    } else if !has_file(files, exercises[0].name) {
        0
    } else {
        tests_request_count(exercises[0].test) + run_request_count(exercises.drop_first(), files)
    }
}

/// What a whole run produces: the verdicts in emission order, and the error
/// that aborted the run, if one did.
pub struct RunReport {
    pub verdicts: Vec<Verdict>,
    pub error: Option<GradeError>,
}

/// Mathematical view of a [`RunReport`].
pub struct RunReportView {
    pub verdicts: Seq<VerdictView>,
    pub error: Option<GradeError>,
}

impl View for RunReport {
    type V = RunReportView;

    open spec fn view(&self) -> RunReportView {
        RunReportView { verdicts: self.verdicts.deep_view(), error: self.error }
    }
}

/// The outcome of a run over given execution outputs: exercises are graded
/// in declared order, each consuming one output per input of its tests; the
/// first exercise without a matching solution file aborts the run, keeping
/// the verdicts already produced.
pub open spec fn run_spec(
    exercises: Seq<ExerciseView>,
    files: Seq<SolutionFileView>,
    outs: Seq<Seq<char>>,
) -> RunReportView
    decreases exercises.len(),
{
    if exercises.len() == 0 {
        RunReportView { verdicts: Seq::empty(), error: None }
    } else if !has_file(files, exercises[0].name) {
        RunReportView { verdicts: Seq::empty(), error: Some(GradeError::ExerciseFileMissing) }
    } else {
        let rest = run_spec(
            exercises.drop_first(),
            files,
            outs.skip(tests_request_count(exercises[0].test) as int),
        );
        RunReportView {
            verdicts: tests_verdicts(exercises[0].test, outs) + rest.verdicts,
            error: rest.error,
        }
    }
}

/// Grades one test: submissions for its inputs have produced the outputs
/// `outputs[start..start + inputs]`, and the verdicts for them come back in
/// input-major, output-minor order.
pub fn run_one_test(t: &Test, outputs: &Vec<String>, start: usize) -> (r: Vec<Verdict>)
    requires
        start + t@.input.len() <= outputs@.len(),
    ensures
        r.deep_view() == test_verdicts(
            t@.test_name,
            t@.input,
            t@.output,
            outputs.deep_view().skip(start as int),
        ),
{
    let ghost outs = outputs.deep_view();
    let ghost tn = t@.test_name;
    let ghost exp = t@.output;
    let olen = outputs.len();
    let mut r: Vec<Verdict> = Vec::new();
    let mut ii: usize = 0;
    proof {
        assert(t@.input.skip(0) =~= t@.input);
        assert(r.deep_view() + test_verdicts(tn, t@.input, exp, outs.skip(start as int))
            =~= test_verdicts(tn, t@.input, exp, outs.skip(start as int)));
    }
    while ii < t.input.len()
        invariant
            0 <= ii <= t.input.len(),
            t@.input.len() == t.input.len(),
            start + t.input.len() <= outputs@.len(),
            outs == outputs.deep_view(),
            outs.len() == outputs@.len(),
            olen == outputs@.len(),
            tn == t@.test_name,
            exp == t@.output,
            test_verdicts(tn, t@.input, exp, outs.skip(start as int)) == r.deep_view()
                + test_verdicts(tn, t@.input.skip(ii as int), exp, outs.skip(start + ii)),
        decreases t.input.len() - ii,
    {
        assert(start + ii < olen);
        let row = verdicts_for_output(&t.test_name, &t.output, outputs[start + ii].as_str());
        proof {
            assert(t@.input.skip(ii as int).drop_first() =~= t@.input.skip(ii as int + 1));
            assert(outs.skip(start + ii).drop_first() =~= outs.skip(start + ii + 1));
            assert(outs.skip(start + ii)[0] == outs[start + ii]);
            assert(outputs@[start + ii]@ == outs[start + ii]);
            assert(test_verdicts(tn, t@.input.skip(ii as int), exp, outs.skip(start + ii))
                == output_verdicts(tn, exp, outs[start + ii]) + test_verdicts(
                tn,
                t@.input.skip(ii as int + 1),
                exp,
                outs.skip(start + ii + 1),
            ));
        }
        let ghost old_r = r.deep_view();
        let mut row_moved = row;
        r.append(&mut row_moved);
        proof {
            assert(r.deep_view() =~= old_r + output_verdicts(tn, exp, outs[start + ii]));
            assert((old_r + output_verdicts(tn, exp, outs[start + ii])) + test_verdicts(
                tn,
                t@.input.skip(ii as int + 1),
                exp,
                outs.skip(start + ii + 1),
            ) =~= old_r + (output_verdicts(tn, exp, outs[start + ii]) + test_verdicts(
                tn,
                t@.input.skip(ii as int + 1),
                exp,
                outs.skip(start + ii + 1),
            )));
        }
        ii = ii + 1;
    }
    proof {
        assert(t@.input.skip(t@.input.len() as int) =~= Seq::<Seq<char>>::empty());
        assert(r.deep_view() + Seq::<VerdictView>::empty() =~= r.deep_view());
    }
    r
}


/// Grades a whole run from its execution outputs: exercises in declared
/// order, tests in declared order, one output consumed per input, verdicts
/// in input-major, output-minor order. The first exercise without a matching
/// solution file aborts the run; the verdicts already produced stand, and no
/// output is consumed for it or the exercises after it.
pub fn evaluate_run(module: &Module, files: &Vec<SolutionFile>, outputs: &Vec<String>) -> (r:
    RunReport)
    requires
        outputs.deep_view().len() == run_request_count(module@.exercise, files.deep_view()),
    ensures
        r@ == run_spec(module@.exercise, files.deep_view(), outputs.deep_view()),
{
    let ghost exs = module@.exercise;
    let ghost fvs = files.deep_view();
    let ghost outs = outputs.deep_view();
    let olen = outputs.len();
    let mut vs: Vec<Verdict> = Vec::new();
    let mut cur: usize = 0;
    let mut ei: usize = 0;
    proof {
        assert(exs.skip(0) =~= exs);
        assert(outs.skip(0) =~= outs);
        assert(vs.deep_view() + run_spec(exs, fvs, outs).verdicts =~= run_spec(
            exs,
            fvs,
            outs,
        ).verdicts);
    }
    while ei < module.exercise.len()
        invariant
            0 <= ei <= module.exercise.len(),
            exs == module@.exercise,
            fvs == files.deep_view(),
            outs == outputs.deep_view(),
            exs.len() == module.exercise.len(),
            outs.len() == outputs@.len(),
            olen == outputs@.len(),
            cur + run_request_count(exs.skip(ei as int), fvs) == outs.len(),
            run_spec(exs, fvs, outs).verdicts == vs.deep_view() + run_spec(
                exs.skip(ei as int),
                fvs,
                outs.skip(cur as int),
            ).verdicts,
            run_spec(exs, fvs, outs).error == run_spec(
                exs.skip(ei as int),
                fvs,
                outs.skip(cur as int),
            ).error,
        decreases module.exercise.len() - ei,
    {
        let e = &module.exercise[ei];
        proof {
            assert(exs.skip(ei as int)[0] == exs[ei as int]);
            assert(exs[ei as int] == e@);
            assert(exs.skip(ei as int).drop_first() =~= exs.skip(ei as int + 1));
        }
        match find_solution_file(e.name.as_str(), files) {
            Err(_) => {
                proof {
                    assert(run_spec(exs.skip(ei as int), fvs, outs.skip(cur as int)).verdicts
                        =~= Seq::<VerdictView>::empty());
                    assert(vs.deep_view() + Seq::<VerdictView>::empty() =~= vs.deep_view());
                }
                return RunReport { verdicts: vs, error: Some(GradeError::ExerciseFileMissing) };
            },
            Ok(_) => {},
        }
        let ghost n = tests_request_count(e@.test);
        proof {
            assert(run_request_count(exs.skip(ei as int), fvs) == n + run_request_count(
                exs.skip(ei as int + 1),
                fvs,
            ));
        }
        let ghost cur0 = cur as int;
        let ghost rem = outs.skip(cur0);
        let ghost emitted0 = vs.deep_view();
        let mut tj: usize = 0;
        proof {
            assert(e@.test.skip(0) =~= e@.test);
            assert(rem.skip(0) =~= rem);
            assert(emitted0 + (Seq::<VerdictView>::empty() + tests_verdicts(e@.test, rem))
                =~= emitted0 + tests_verdicts(e@.test, rem));
            assert(Seq::<VerdictView>::empty() + tests_verdicts(e@.test, rem)
                =~= tests_verdicts(e@.test, rem));
        }
        while tj < e.test.len()
            invariant
                0 <= tj <= e.test.len(),
                e@.test.len() == e.test.len(),
                outs == outputs.deep_view(),
                outs.len() == outputs@.len(),
                olen == outputs@.len(),
                cur0 + n <= outs.len(),
                n == tests_request_count(e@.test),
                cur0 <= cur as int,
                cur as int - cur0 + tests_request_count(e@.test.skip(tj as int)) == n,
                emitted0 + tests_verdicts(e@.test, outs.skip(cur0)) == vs.deep_view()
                    + tests_verdicts(e@.test.skip(tj as int), outs.skip(cur as int)),
            decreases e.test.len() - tj,
        {
            let t = &e.test[tj];
            proof {
                assert(e@.test.skip(tj as int)[0] == e@.test[tj as int]);
                assert(e@.test[tj as int] == t@);
                assert(e@.test.skip(tj as int).drop_first() =~= e@.test.skip(tj as int + 1));
                assert(tests_request_count(e@.test.skip(tj as int)) == t@.input.len()
                    + tests_request_count(e@.test.skip(tj as int + 1)));
            }
            let row = run_one_test(t, outputs, cur);
            proof {
                assert(outs.skip(cur as int).skip(t@.input.len() as int) =~= outs.skip(
                    cur as int + t@.input.len(),
                ));
                assert(tests_verdicts(e@.test.skip(tj as int), outs.skip(cur as int))
                    == test_verdicts(t@.test_name, t@.input, t@.output, outs.skip(cur as int))
                    + tests_verdicts(
                    e@.test.skip(tj as int + 1),
                    outs.skip(cur as int + t@.input.len()),
                ));
            }
            let ghost old_vs = vs.deep_view();
            let ghost row_view = row.deep_view();
            let mut row_moved = row;
            vs.append(&mut row_moved);
            proof {
                assert(vs.deep_view() =~= old_vs + row_view);
                assert((old_vs + row_view) + tests_verdicts(
                    e@.test.skip(tj as int + 1),
                    outs.skip(cur as int + t@.input.len()),
                ) =~= old_vs + (row_view + tests_verdicts(
                    e@.test.skip(tj as int + 1),
                    outs.skip(cur as int + t@.input.len()),
                )));
            }
            assert(cur + t.input.len() <= olen);
            cur = cur + t.input.len();
            tj = tj + 1;
        }
        proof {
            assert(e@.test.skip(e@.test.len() as int) =~= Seq::<TestView>::empty());
            assert(vs.deep_view() + Seq::<VerdictView>::empty() =~= vs.deep_view());
            assert(vs.deep_view() == emitted0 + tests_verdicts(e@.test, outs.skip(cur0)));
            assert(cur as int == cur0 + n);
            // re-establish the outer invariant
            assert(outs.skip(cur0).skip(n as int) =~= outs.skip(cur0 + n));
            assert(run_spec(exs.skip(ei as int), fvs, outs.skip(cur0)).verdicts == tests_verdicts(
                e@.test,
                outs.skip(cur0),
            ) + run_spec(exs.skip(ei as int + 1), fvs, outs.skip(cur0 + n)).verdicts);
            assert(run_spec(exs.skip(ei as int), fvs, outs.skip(cur0)).error == run_spec(
                exs.skip(ei as int + 1),
                fvs,
                outs.skip(cur0 + n),
            ).error);
            assert((emitted0 + tests_verdicts(e@.test, outs.skip(cur0))) + run_spec(
                exs.skip(ei as int + 1),
                fvs,
                outs.skip(cur0 + n),
            ).verdicts =~= emitted0 + (tests_verdicts(e@.test, outs.skip(cur0)) + run_spec(
                exs.skip(ei as int + 1),
                fvs,
                outs.skip(cur0 + n),
            ).verdicts));
        }
        ei = ei + 1;
    }
    proof {
        assert(exs.skip(exs.len() as int) =~= Seq::<ExerciseView>::empty());
        assert(vs.deep_view() + Seq::<VerdictView>::empty() =~= vs.deep_view());
    }
    RunReport { verdicts: vs, error: None }
}


/// A sequence of tests gives rise to exactly one submission per declared
/// input: the planned submissions and the outputs a run consumes for them
/// count the same.
pub proof fn lemma_tests_plan_length(
    file: SolutionFileView,
    rt: RuntimeView,
    tests: Seq<TestView>,
)
    ensures
        tests_plan(file, rt, tests).len() == tests_request_count(tests),
    decreases tests.len(),
{
    if tests.len() > 0 {
        lemma_tests_plan_length(file, rt, tests.drop_first());
    }
}

/// Every test's verdicts are its cross product: with N declared inputs and
/// M declared outputs, exactly N times M verdicts are produced, all labeled
/// with the test's name, in input-major then output-minor order, and the
/// verdict for input `i` and expected output `j` passes exactly when the
/// `i`-th execution output and the `j`-th expected output agree once
/// trimmed.
pub proof fn lemma_cross_product_verdicts(
    test_name: Seq<char>,
    inputs: Seq<Seq<char>>,
    expected: Seq<Seq<char>>,
    outs: Seq<Seq<char>>,
)
    requires
        inputs.len() <= outs.len(),
    ensures
        test_verdicts(test_name, inputs, expected, outs).len() == inputs.len() * expected.len(),
        forall|k: int|
            0 <= k < inputs.len() * expected.len() ==> test_verdicts(
                test_name,
                inputs,
                expected,
                outs,
            )[k].test_name == test_name,
        forall|i: int, j: int|
            0 <= i < inputs.len() && 0 <= j < expected.len() ==> test_verdicts(
                test_name,
                inputs,
                expected,
                outs,
            )[i * expected.len() + j] == (VerdictView {
                test_name: test_name,
                passed: trimmed(outs[i]) == trimmed(expected[j]),
            }),
    decreases inputs.len(),
{
    let result = test_verdicts(test_name, inputs, expected, outs);
    let m = expected.len() as int;
    let n = inputs.len() as int;
    if inputs.len() == 0 {
        assert(result.len() == 0);
    } else {
        lemma_cross_product_verdicts(test_name, inputs.drop_first(), expected, outs.drop_first());
        let head = output_verdicts(test_name, expected, outs[0]);
        let tail = test_verdicts(test_name, inputs.drop_first(), expected, outs.drop_first());
        assert(result == head + tail);
        assert(head.len() == m);
        assert(tail.len() == (n - 1) * m);
        assert(m + (n - 1) * m == n * m) by (nonlinear_arith);
        assert(result.len() == n * m);
        assert forall|k: int| 0 <= k < n * m implies result[k].test_name == test_name by {
            if k < m {
                assert(result[k] == head[k]);
            } else {
                assert(result[k] == tail[k - m]);
                assert(k - m < (n - 1) * m) by (nonlinear_arith)
                    requires
                        k < n * m,
                ;
            }
        }
        assert forall|i: int, j: int| 0 <= i < n && 0 <= j < m implies result[i * m + j]
            == (VerdictView {
            test_name: test_name,
            passed: trimmed(outs[i]) == trimmed(expected[j]),
        }) by {
            if i == 0 {
                assert(result[j] == head[j]);
            } else {
                let k = i * m + j;
                assert(m <= k && k - m == (i - 1) * m + j && k < n * m && (i - 1) * m + j < (n - 1)
                    * m) by (nonlinear_arith)
                    requires
                        1 <= i < n,
                        0 <= j < m,
                        k == i * m + j,
                ;
                assert((head + tail)[k] == tail[k - m]);
                assert(outs.drop_first()[i - 1] == outs[i]);
                assert(tail[(i - 1) * m + j] == (VerdictView {
                    test_name: test_name,
                    passed: trimmed(outs.drop_first()[i - 1]) == trimmed(expected[j]),
                }));
                assert(result[k] == tail[(i - 1) * m + j]);
            }
        }
    }
}

/// The verdict stream is deterministic: a fixed configuration, a fixed file
/// set, and a fixed sequence of execution outputs always yield the same
/// verdicts in the same order and the same final error.
pub proof fn lemma_run_deterministic(
    exercises1: Seq<ExerciseView>,
    files1: Seq<SolutionFileView>,
    outs1: Seq<Seq<char>>,
    exercises2: Seq<ExerciseView>,
    files2: Seq<SolutionFileView>,
    outs2: Seq<Seq<char>>,
)
    requires
        exercises1 == exercises2,
        files1 == files2,
        outs1 == outs2,
    ensures
        run_spec(exercises1, files1, outs1) == run_spec(exercises2, files2, outs2),
{
}

/// An exercise without a matching solution file is never skipped silently:
/// if every exercise before position `i` has a matching file and the one at
/// `i` has none, the run aborts with the missing-file error.
pub proof fn lemma_missing_file_aborts(
    exercises: Seq<ExerciseView>,
    files: Seq<SolutionFileView>,
    outs: Seq<Seq<char>>,
    i: int,
)
    requires
        0 <= i < exercises.len(),
        forall|j: int| 0 <= j < i ==> has_file(files, exercises[j].name),
        !has_file(files, exercises[i].name),
    ensures
        run_spec(exercises, files, outs).error == Some(GradeError::ExerciseFileMissing),
    decreases i,
{
    if i > 0 {
        assert(has_file(files, exercises[0].name));
        assert forall|j: int| 0 <= j < i - 1 implies has_file(
            files,
            exercises.drop_first()[j].name,
        ) by {
            assert(exercises.drop_first()[j] == exercises[j + 1]);
        }
        assert(exercises.drop_first()[i - 1] == exercises[i]);
        lemma_missing_file_aborts(
            exercises.drop_first(),
            files,
            outs.skip(tests_request_count(exercises[0].test) as int),
            i - 1,
        );
    }
}

/// A run whose exercises all have matching solution files completes without
/// error.
pub proof fn lemma_all_files_present_no_error(
    exercises: Seq<ExerciseView>,
    files: Seq<SolutionFileView>,
    outs: Seq<Seq<char>>,
)
    requires
        forall|j: int| 0 <= j < exercises.len() ==> has_file(files, exercises[j].name),
    ensures
        run_spec(exercises, files, outs).error is None,
    decreases exercises.len(),
{
    if exercises.len() > 0 {
        assert forall|j: int| 0 <= j < exercises.len() - 1 implies has_file(
            files,
            exercises.drop_first()[j].name,
        ) by {
            assert(exercises.drop_first()[j] == exercises[j + 1]);
        }
        lemma_all_files_present_no_error(
            exercises.drop_first(),
            files,
            outs.skip(tests_request_count(exercises[0].test) as int),
        );
    }
}


/// The verdicts emitted when planned submissions are graded one at a time,
/// each against the output the service returned for it, in plan order.
pub open spec fn stepwise_verdicts(subs: Seq<SubmissionView>, outs: Seq<Seq<char>>) -> Seq<
    VerdictView,
>
    decreases subs.len(),
{
    if subs.len() == 0 {
        Seq::empty()
    } else {
        output_verdicts(subs[0].test_name, subs[0].expected, outs[0]) + stepwise_verdicts(
            subs.drop_first(),
            outs.drop_first(),
        )
    }
}

/// Grading submission by submission splits over concatenated plans: the
/// first plan consumes its own outputs, the second the ones after them.
pub proof fn lemma_stepwise_concat(
    a: Seq<SubmissionView>,
    b: Seq<SubmissionView>,
    outs: Seq<Seq<char>>,
)
    requires
        a.len() <= outs.len(),
    ensures
        stepwise_verdicts(a + b, outs) == stepwise_verdicts(a, outs) + stepwise_verdicts(
            b,
            outs.skip(a.len() as int),
        ),
    decreases a.len(),
{
    if a.len() == 0 {
        assert(a + b =~= b);
        assert(outs.skip(0) =~= outs);
        assert(Seq::<VerdictView>::empty() + stepwise_verdicts(b, outs) =~= stepwise_verdicts(
            b,
            outs,
        ));
    } else {
        assert((a + b)[0] == a[0]);
        assert((a + b).drop_first() =~= a.drop_first() + b);
        assert(outs.drop_first().skip(a.len() - 1) =~= outs.skip(a.len() as int));
        lemma_stepwise_concat(a.drop_first(), b, outs.drop_first());
        let head = output_verdicts(a[0].test_name, a[0].expected, outs[0]);
        assert((head + stepwise_verdicts(a.drop_first(), outs.drop_first())) + stepwise_verdicts(
            b,
            outs.skip(a.len() as int),
        ) =~= head + (stepwise_verdicts(a.drop_first(), outs.drop_first()) + stepwise_verdicts(
            b,
            outs.skip(a.len() as int),
        )));
    }
}

/// Grading one test's planned submissions one at a time emits exactly the
/// test's verdicts.
pub proof fn lemma_stepwise_one_test(
    file: SolutionFileView,
    rt: RuntimeView,
    t: TestView,
    outs: Seq<Seq<char>>,
)
    requires
        t.input.len() <= outs.len(),
    ensures
        stepwise_verdicts(test_plan(file, rt, t), outs) == test_verdicts(
            t.test_name,
            t.input,
            t.output,
            outs,
        ),
    decreases t.input.len(),
{
    if t.input.len() > 0 {
        let t2 = TestView {
            test_name: t.test_name,
            input: t.input.drop_first(),
            output: t.output,
        };
        assert(test_plan(file, rt, t)[0] == submission_for(file, rt, t, 0));
        assert(test_plan(file, rt, t).drop_first() =~= test_plan(file, rt, t2));
        lemma_stepwise_one_test(file, rt, t2, outs.drop_first());
    }
}

/// Grading an exercise's planned submissions one at a time, in plan order,
/// each against the output the service returned for it, emits exactly the
/// verdicts of the exercise's test sequence: the stepwise runner and the
/// whole-run semantics agree.
pub proof fn lemma_stepwise_agrees_with_run(
    file: SolutionFileView,
    rt: RuntimeView,
    tests: Seq<TestView>,
    outs: Seq<Seq<char>>,
)
    requires
        tests_request_count(tests) <= outs.len(),
    ensures
        stepwise_verdicts(tests_plan(file, rt, tests), outs) == tests_verdicts(tests, outs),
    decreases tests.len(),
{
    if tests.len() > 0 {
        let head = test_plan(file, rt, tests[0]);
        let rest = tests_plan(file, rt, tests.drop_first());
        lemma_stepwise_concat(head, rest, outs);
        lemma_stepwise_one_test(file, rt, tests[0], outs);
        lemma_stepwise_agrees_with_run(
            file,
            rt,
            tests.drop_first(),
            outs.skip(tests[0].input.len() as int),
        );
    }
}

} // verus!

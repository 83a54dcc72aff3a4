use grader::model::{Exercise, GradeError, Module, Runtime, SolutionFile, Test};
use grader::run::{evaluate_run, plan_exercise, verdicts_for_output, verdicts_for_submission};
use grader::select::{find_solution_file, resolve_runtime};

fn strings(xs: &[&str]) -> Vec<String> {
    xs.iter().map(|s| s.to_string()).collect()
}

fn test_case(name: &str, input: &[&str], output: &[&str]) -> Test {
    Test { test_name: name.to_string(), input: strings(input), output: strings(output) }
}

fn exercise(name: &str, tests: Vec<Test>) -> Exercise {
    Exercise { name: name.to_string(), test: tests }
}

fn file(name: &str, content: &str) -> SolutionFile {
    SolutionFile { name: name.to_string(), content: content.to_string() }
}

fn runtime(language: &str, version: &str) -> Runtime {
    Runtime { language: language.to_string(), version: version.to_string(), aliases: vec![] }
}

#[test]
fn matching_output_passes() {
    let module = Module { exercise: vec![exercise("add", vec![test_case("basic", &["1 2"], &["3"])]) ] };
    let files = vec![file("add", "print(sum(map(int, input().split())))")];
    let outputs = strings(&["3\n"]);
    let report = evaluate_run(&module, &files, &outputs);
    assert!(report.error.is_none());
    assert_eq!(report.verdicts.len(), 1);
    assert_eq!(report.verdicts[0].test_name, "basic");
    assert!(report.verdicts[0].passed);
}

#[test]
fn mismatching_output_fails() {
    let module = Module { exercise: vec![exercise("add", vec![test_case("basic", &["1 2"], &["3"])]) ] };
    let files = vec![file("add", "print(4)")];
    let outputs = strings(&["4\n"]);
    let report = evaluate_run(&module, &files, &outputs);
    assert!(report.error.is_none());
    assert_eq!(report.verdicts.len(), 1);
    assert_eq!(report.verdicts[0].test_name, "basic");
    assert!(!report.verdicts[0].passed);
}

#[test]
fn cross_product_emits_n_times_m_verdicts() {
    let module = Module {
        exercise: vec![exercise("echo", vec![test_case("pairs", &["1", "2"], &["A", "B"])])],
    };
    let files = vec![file("echo", "cat")];
    // one execution output per input
    let outputs = strings(&["A", "B"]);
    let report = evaluate_run(&module, &files, &outputs);
    assert!(report.error.is_none());
    assert_eq!(report.verdicts.len(), 4);
    for v in &report.verdicts {
        assert_eq!(v.test_name, "pairs");
    }
    // input-major, output-minor: (out "A" vs "A"), ("A" vs "B"), ("B" vs "A"), ("B" vs "B")
    let passes: Vec<bool> = report.verdicts.iter().map(|v| v.passed).collect();
    assert_eq!(passes, vec![true, false, false, true]);
}

#[test]
fn missing_file_terminates_run_before_any_submission() {
    let module = Module { exercise: vec![exercise("sort", vec![test_case("t", &["3 1 2"], &["1 2 3"])]) ] };
    let files = vec![file("add", "unrelated")];
    // a run that aborts on its first exercise makes no submission at all,
    // so there are no outputs to hand over
    let outputs: Vec<String> = vec![];
    let report = evaluate_run(&module, &files, &outputs);
    assert_eq!(report.error, Some(GradeError::ExerciseFileMissing));
    assert!(report.verdicts.is_empty());
}

#[test]
fn missing_file_keeps_earlier_verdicts() {
    let module = Module {
        exercise: vec![
            exercise("add", vec![test_case("basic", &["1 2"], &["3"])]),
            exercise("sort", vec![test_case("t", &["3 1 2"], &["1 2 3"])]),
        ],
    };
    let files = vec![file("add", "x")];
    // only the first exercise is submitted before the run aborts
    let outputs = strings(&["3"]);
    let report = evaluate_run(&module, &files, &outputs);
    assert_eq!(report.error, Some(GradeError::ExerciseFileMissing));
    assert_eq!(report.verdicts.len(), 1);
    assert_eq!(report.verdicts[0].test_name, "basic");
    assert!(report.verdicts[0].passed);
}

#[test]
fn rerun_yields_identical_verdicts() {
    let module = Module {
        exercise: vec![
            exercise("a", vec![test_case("t1", &["x"], &["1"]), test_case("t2", &["y", "z"], &["2"])]),
        ],
    };
    let files = vec![file("a", "src")];
    let outputs = strings(&["1", "2\n", "wrong"]);
    let first = evaluate_run(&module, &files, &outputs);
    let second = evaluate_run(&module, &files, &outputs);
    assert_eq!(first.error, second.error);
    assert_eq!(first.verdicts.len(), second.verdicts.len());
    for (v, w) in first.verdicts.iter().zip(second.verdicts.iter()) {
        assert_eq!(v.test_name, w.test_name);
        assert_eq!(v.passed, w.passed);
    }
    let names: Vec<&str> = first.verdicts.iter().map(|v| v.test_name.as_str()).collect();
    assert_eq!(names, vec!["t1", "t2", "t2"]);
    let passes: Vec<bool> = first.verdicts.iter().map(|v| v.passed).collect();
    assert_eq!(passes, vec![true, true, false]);
}

#[test]
fn resolve_runtime_picks_first_exact_match() {
    let catalog = vec![
        runtime("python", "2.7.18"),
        runtime("rust", "1.68.2"),
        runtime("python", "3.10.0"),
    ];
    let rt = resolve_runtime(&catalog, "python").unwrap();
    assert_eq!(rt.language, "python");
    assert_eq!(rt.version, "2.7.18");
}

#[test]
fn resolve_runtime_is_exact_on_language() {
    let catalog = vec![runtime("python", "3.10.0")];
    assert!(matches!(resolve_runtime(&catalog, "python3"), Err(GradeError::RuntimeNotFound)));
    assert!(matches!(resolve_runtime(&catalog, "Python"), Err(GradeError::RuntimeNotFound)));
    assert!(matches!(resolve_runtime(&vec![], "python"), Err(GradeError::RuntimeNotFound)));
}

#[test]
fn find_solution_file_first_match_wins() {
    let files = vec![file("add", "first"), file("add", "second"), file("mul", "x")];
    let found = find_solution_file("add", &files).unwrap();
    assert_eq!(found.content, "first");
    let missing = find_solution_file("sub", &files);
    assert!(matches!(missing, Err(GradeError::ExerciseFileMissing)));
}

#[test]
fn plan_exercise_orders_submissions_by_test_then_input() {
    let e = exercise(
        "add",
        vec![test_case("t1", &["1 2", "3 4"], &["3", "7"]), test_case("t2", &["5 6"], &["11"])],
    );
    let files = vec![file("other", "n"), file("add", "body")];
    let rt = runtime("python", "3.10.0");
    let subs = plan_exercise(&e, &files, &rt).unwrap();
    assert_eq!(subs.len(), 3);
    let stdins: Vec<&str> = subs.iter().map(|s| s.stdin.as_str()).collect();
    assert_eq!(stdins, vec!["1 2", "3 4", "5 6"]);
    for s in &subs {
        assert_eq!(s.language, "python");
        assert_eq!(s.version, "3.10.0");
        assert_eq!(s.file_name, "add");
        assert_eq!(s.file_content, "body");
    }
    assert_eq!(subs[0].test_name, "t1");
    assert_eq!(subs[0].expected, vec!["3".to_string(), "7".to_string()]);
    assert_eq!(subs[2].test_name, "t2");
    assert_eq!(subs[2].expected, vec!["11".to_string()]);
}

#[test]
fn plan_exercise_fails_without_matching_file() {
    let e = exercise("sort", vec![test_case("t", &["1"], &["1"])]);
    let files = vec![file("add", "x")];
    let rt = runtime("python", "3.10.0");
    assert!(matches!(plan_exercise(&e, &files, &rt), Err(GradeError::ExerciseFileMissing)));
}

#[test]
fn verdicts_compare_trimmed_output_against_each_expected() {
    let name = "t".to_string();
    let expected = strings(&["3", "4"]);
    let vs = verdicts_for_output(&name, &expected, "3\n");
    assert_eq!(vs.len(), 2);
    assert!(vs[0].passed);
    assert!(!vs[1].passed);
    assert_eq!(vs[0].test_name, "t");
    assert_eq!(vs[1].test_name, "t");
}

#[test]
fn submission_verdicts_use_its_expectations() {
    let e = exercise("add", vec![test_case("basic", &["1 2"], &["3"])]);
    let files = vec![file("add", "body")];
    let rt = runtime("python", "3.10.0");
    let subs = plan_exercise(&e, &files, &rt).unwrap();
    let vs = verdicts_for_submission(&subs[0], "  3  ");
    assert_eq!(vs.len(), 1);
    assert!(vs[0].passed);
    assert_eq!(vs[0].test_name, "basic");
}

#[test]
fn error_descriptions_name_each_stage() {
    let all = [
        GradeError::Config,
        GradeError::FileSystem,
        GradeError::RuntimeNotFound,
        GradeError::ExerciseFileMissing,
        GradeError::Transport,
        GradeError::ResponseFormat,
    ];
    let texts: Vec<String> = all.iter().map(|e| e.describe()).collect();
    for t in &texts {
        assert!(!t.is_empty());
    }
    for i in 0..texts.len() {
        for j in 0..i {
            assert_ne!(texts[i], texts[j]);
        }
    }
}

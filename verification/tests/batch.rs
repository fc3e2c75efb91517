use isotarp::coverage::batch::{
    judge_build, pool_size_for, run_analysis, worker_pool_size, BatchRun, BuildResult,
    Completion, Dispatch, MAX_WORKERS,
};
use isotarp::coverage::tarpaulin::TestRun;
use isotarp::types::{Error, ErrorKind, SourceFile, LineStat, TargetMode, TarpaulinReport, Trace};
use isotarp::utils::cleanup::{cleanup_target_dirs, TreeListing};
use isotarp::utils::pipeline::{EntryKind, ListedEntry};
use isotarp::utils::plan::FsStep;
use std::collections::HashSet;

fn report(package: &str, file: &str, lines: &[u64]) -> TarpaulinReport {
    let traces = lines
        .iter()
        .map(|line| Trace { line: *line, stats: LineStat::Line(1), address: HashSet::new(), length: 1 })
        .collect();
    TarpaulinReport {
        files: vec![SourceFile {
            path: vec!["src".to_string(), package.to_string(), file.to_string()],
            content: String::new(),
            traces,
            covered: lines.len(),
            coverable: lines.len(),
        }],
        covered: lines.len(),
        coverable: lines.len(),
    }
}

fn completed(file: &str, lines: &[u64]) -> TestRun {
    TestRun::Completed { report: report("demolib", file, lines) }
}

fn names(list: &[&str]) -> Vec<String> {
    list.iter().map(|name| name.to_string()).collect()
}

#[test]
fn pool_is_one_per_cpu_up_to_the_cap() {
    assert_eq!(MAX_WORKERS, 8);
    assert_eq!(pool_size_for(0), 1);
    assert_eq!(pool_size_for(1), 1);
    assert_eq!(pool_size_for(4), 4);
    assert_eq!(pool_size_for(8), 8);
    assert_eq!(pool_size_for(64), 8);
    let here = worker_pool_size();
    assert!(1 <= here && here <= 8);
}

#[test]
fn analysis_begins_with_clean_and_build() {
    let plan = run_analysis("demolib", &names(&["t1"]), "/w/out", TargetMode::Per);
    assert_eq!(plan.output_dir, "/w/out");
    assert_eq!(plan.master_target_dir, "target");
    assert_eq!(plan.build.len(), 2);
    assert_eq!(plan.build[0].program, "cargo");
    assert_eq!(plan.build[0].args, names(&["clean", "-p", "demolib"]));
    assert_eq!(plan.build[0].label, "cargo clean");
    assert_eq!(plan.build[1].program, "cargo");
    assert_eq!(plan.build[1].args, names(&["build", "--tests", "-p", "demolib"]));
    assert_eq!(plan.build[1].label, "cargo build --tests");
    assert!(!plan.run.is_done());
}

#[test]
fn a_failed_build_ends_the_batch() {
    let plan = run_analysis("demolib", &names(&["t1"]), "/w/out", TargetMode::Per);
    assert_eq!(judge_build(&plan.build[0], &BuildResult::Exited { success: true }), None);
    assert_eq!(
        judge_build(&plan.build[0], &BuildResult::Exited { success: false }),
        Some(Error::CommandFailed("cargo clean".to_string()))
    );
    assert_eq!(
        judge_build(&plan.build[1], &BuildResult::Exited { success: false }),
        Some(Error::CommandFailed("cargo build --tests".to_string()))
    );
    let error = judge_build(&plan.build[1], &BuildResult::Exited { success: false }).unwrap();
    assert_eq!(error.message(), "Command failed: cargo build --tests");
    assert_eq!(
        judge_build(&plan.build[1], &BuildResult::SpawnFailed { reason: "no cargo".to_string() }),
        Some(Error::Io("no cargo".to_string()))
    );
}

#[test]
fn no_more_tests_are_in_flight_than_the_pool_has_workers() {
    let tests = names(&["t1", "t2", "t3", "t4", "t5"]);
    let mut run = BatchRun::new("demolib", &tests, "/w/out", TargetMode::Per, 2);
    let first = run.next_test().unwrap();
    let second = run.next_test().unwrap();
    assert_eq!((first.index, second.index), (0, 1));
    assert_eq!(first.target_dir.as_deref(), Some("/w/.isotarp-artifacts/t1/tarpaulin-target"));
    assert_eq!(first.prepare_next, None);
    assert_eq!(run.next_test(), None);
    assert_eq!(run.next_test(), None);

    assert!(run.test_finished(1, &completed("a.rs", &[1])).accepted);
    let third = run.next_test().unwrap();
    assert_eq!(third.index, 2);
    assert_eq!(third.test, "t3");
    assert_eq!(run.next_test(), None);

    let mut in_flight = 2;
    let mut handed_out = 3;
    for index in [0, 2, 3, 4] {
        assert!(run.test_finished(index, &completed("a.rs", &[index as u64])).accepted);
        in_flight -= 1;
        while let Some(dispatch) = run.next_test() {
            assert_eq!(dispatch.index, handed_out);
            handed_out += 1;
            in_flight += 1;
            assert!(in_flight <= 2);
        }
    }
    assert_eq!(handed_out, 5);
    assert_eq!(in_flight, 0);
    assert!(run.is_done());
}

#[test]
fn a_report_for_a_test_that_is_not_running_changes_nothing() {
    let tests = names(&["t1", "t2"]);
    let mut run = BatchRun::new("demolib", &tests, "/w/out", TargetMode::Per, 4);
    let ignored = Completion { accepted: false, cleanup_test: None, teardown_pipeline: false };
    assert_eq!(run.test_finished(0, &completed("a.rs", &[1])), ignored);
    assert_eq!(run.test_finished(7, &completed("a.rs", &[1])), ignored);
    run.next_test().unwrap();
    assert!(run.test_finished(0, &completed("a.rs", &[1])).accepted);
    assert_eq!(run.test_finished(0, &completed("a.rs", &[1])), ignored);
}

#[test]
fn a_zero_pool_still_runs_one_test_at_a_time() {
    let tests = names(&["t1", "t2"]);
    let mut run = BatchRun::new("demolib", &tests, "/w/out", TargetMode::Per, 0);
    assert!(run.next_test().is_some());
    assert!(run.next_test().is_none());
}

#[test]
fn single_directory_mode_runs_in_sequence_and_prepares_ahead() {
    let tests = names(&["t1", "t2", "t3"]);
    let mut run = BatchRun::new("demolib", &tests, "/w/out", TargetMode::One, 8);
    assert_eq!(
        run.next_test(),
        Some(Dispatch {
            index: 0,
            test: "t1".to_string(),
            target_dir: None,
            prepare_next: Some("t2".to_string()),
        })
    );
    assert_eq!(run.next_test(), None);
    assert_eq!(
        run.test_finished(0, &completed("a.rs", &[1, 2, 3])),
        Completion { accepted: true, cleanup_test: Some("t1".to_string()), teardown_pipeline: false }
    );
    let second = run.next_test().unwrap();
    assert_eq!(second.prepare_next.as_deref(), Some("t3"));
    run.test_finished(1, &completed("a.rs", &[3, 4, 5]));
    let third = run.next_test().unwrap();
    assert_eq!(third.prepare_next, None);
    assert!(!run.is_done());
    run.test_finished(2, &completed("b.rs", &[9]));
    assert!(run.is_done());

    let outcome = run.finish();
    assert_eq!(outcome.sweep, tests);
    let analysis = outcome.result.unwrap();
    assert_eq!(analysis.package, "demolib");
    assert_eq!(analysis.tests.len(), 3);
    let t1 = analysis.tests.get(&"t1".to_string()).unwrap();
    assert_eq!((t1.total_covered_lines, t1.unique_covered_lines), (3, 2));
    let file = t1.files.get(&"src/demolib/a.rs".to_string()).unwrap();
    assert_eq!(file.unique_lines, vec![1, 2]);
    let t3 = analysis.tests.get(&"t3".to_string()).unwrap();
    assert_eq!((t3.total_covered_lines, t3.unique_covered_lines), (1, 1));
}

#[test]
fn a_failing_second_test_ends_the_batch_in_its_error() {
    let tests = names(&["t1", "t2", "t3"]);
    let mut run = BatchRun::new("demolib", &tests, "/w/out", TargetMode::Per, 1);
    let mut reclaimed = Vec::new();

    assert_eq!(run.next_test().unwrap().test, "t1");
    let done = run.test_finished(0, &completed("a.rs", &[1, 2, 3]));
    reclaimed.push(done.cleanup_test.unwrap());

    assert_eq!(run.next_test().unwrap().test, "t2");
    let failed = TestRun::Failed { status: "exit status: 101".to_string(), stderr: "boom".to_string() };
    let done = run.test_finished(1, &failed);
    assert!(done.accepted);
    assert!(!done.teardown_pipeline);
    reclaimed.push(done.cleanup_test.unwrap());

    assert_eq!(run.next_test(), None);
    assert!(run.is_done());
    let outcome = run.finish();
    assert_eq!(outcome.sweep, tests);
    assert_eq!(reclaimed, vec!["t1".to_string(), "t2".to_string()]);

    let root = "/w/.isotarp-artifacts";
    let mut entries = Vec::new();
    for test in ["t1", "t2", "t3"] {
        for path in [format!("{}/{}", root, test), format!("{}/{}/tarpaulin-target", root, test)] {
            entries.push(ListedEntry { path, kind: EntryKind::Dir });
        }
        entries.push(ListedEntry {
            path: format!("{}/{}/tarpaulin-target/debug.bin", root, test),
            kind: EntryKind::File,
        });
    }
    let tree = TreeListing { root: root.to_string(), root_is_dir: true, entries };
    let steps = cleanup_target_dirs("/w/out", &outcome.sweep, &tree);
    for test in ["t1", "t2", "t3"] {
        let target = FsStep::RemoveDirAll { path: format!("{}/{}/tarpaulin-target", root, test) };
        assert!(steps.contains(&target));
    }

    let error = outcome.result.unwrap_err();
    assert_eq!(error.kind(), ErrorKind::TarpaulinFailed);
    assert_eq!(
        error,
        Error::TarpaulinFailed(
            "Tarpaulin failed for test 't2' with status: exit status: 101\nStderr: boom".to_string()
        )
    );
    assert!(error.message().contains("'t2'"));
}

#[test]
fn tests_in_flight_finish_after_a_failure_and_the_first_error_stands() {
    let tests = names(&["t1", "t2", "t3", "t4"]);
    let mut run = BatchRun::new("demolib", &tests, "/w/out", TargetMode::Per, 3);
    for _ in 0..3 {
        run.next_test().unwrap();
    }
    let first = TestRun::SpawnFailed { reason: "gone".to_string() };
    let later = TestRun::ReportMalformed { reason: "bad json".to_string() };
    assert!(run.test_finished(1, &first).accepted);
    assert_eq!(run.next_test(), None);
    assert!(!run.is_done());
    assert!(run.test_finished(2, &later).accepted);
    assert!(run.test_finished(0, &completed("a.rs", &[1])).accepted);
    assert_eq!(run.next_test(), None);
    assert!(run.is_done());
    let outcome = run.finish();
    assert_eq!(
        outcome.result.unwrap_err(),
        Error::CommandFailed("Failed to execute cargo command: gone".to_string())
    );
    assert_eq!(outcome.sweep.len(), 4);
}

#[test]
fn a_failure_in_single_directory_mode_tears_the_pipeline_down() {
    let tests = names(&["t1", "t2"]);
    let mut run = BatchRun::new("demolib", &tests, "/w/out", TargetMode::One, 1);
    run.next_test().unwrap();
    let failed = TestRun::ReportUnreadable { reason: "No such file".to_string() };
    assert_eq!(
        run.test_finished(0, &failed),
        Completion { accepted: true, cleanup_test: Some("t1".to_string()), teardown_pipeline: true }
    );
    let error = run.finish().result.unwrap_err();
    assert_eq!(
        error,
        Error::Io("Failed to read tarpaulin report '/w/out/t1/tarpaulin-report.json': No such file".to_string())
    );
}

#[test]
fn a_batch_that_is_still_running_has_no_analysis() {
    let tests = names(&["t1"]);
    let mut run = BatchRun::new("demolib", &tests, "/w/out", TargetMode::Per, 1);
    run.next_test().unwrap();
    assert_eq!(
        run.finish().result.unwrap_err(),
        Error::CommandFailed("test batch is still running".to_string())
    );
    let untouched = BatchRun::new("demolib", &tests, "/w/out", TargetMode::Per, 1);
    assert!(untouched.finish().result.is_err());
    let empty = BatchRun::new("demolib", &Vec::new(), "/w/out", TargetMode::Per, 1);
    assert!(empty.is_done());
    assert_eq!(empty.finish().result.unwrap().tests.len(), 0);
}

use isotarp::coverage::tarpaulin::{
    covered_lines_of, extract_covered_lines, join_components, list_args, list_tests,
    parse_test_list, run_isolated_test_coverage, tarpaulin_args, test_entry_of, ListRun, TestRun,
};
use isotarp::types::{Error, LineStat, SourceFile, TarpaulinReport, Trace};
use std::collections::HashSet;

fn trace(line: u64, count: u64) -> Trace {
    Trace { line, stats: LineStat::Line(count), address: HashSet::new(), length: 1 }
}

fn source(path: &[&str], traces: Vec<Trace>) -> SourceFile {
    SourceFile {
        path: path.iter().map(|part| part.to_string()).collect(),
        content: String::new(),
        traces,
        covered: 0,
        coverable: 0,
    }
}

fn strings(list: &[&str]) -> Vec<String> {
    list.iter().map(|item| item.to_string()).collect()
}

#[test]
fn components_are_joined_by_slashes() {
    assert_eq!(join_components(&strings(&["home", "me", "demolib", "src", "lib.rs"])), "home/me/demolib/src/lib.rs");
    assert_eq!(join_components(&strings(&["", "home", "x"])), "/home/x");
    assert_eq!(join_components(&strings(&["one"])), "one");
    assert_eq!(join_components(&strings(&[])), "");
    assert_eq!(join_components(&strings(&["", ""])), "/");
}

#[test]
fn only_executed_lines_count_as_covered() {
    let lines = covered_lines_of(&vec![trace(4, 1), trace(2, 0), trace(9, 12), trace(4, 3), trace(7, 0)]);
    assert_eq!(lines.to_vec(), vec![4, 9]);
    assert!(covered_lines_of(&vec![trace(1, 0)]).is_empty());
    assert!(covered_lines_of(&Vec::new()).is_empty());
}

#[test]
fn extraction_keeps_the_files_of_the_package_with_executed_lines() {
    let report = TarpaulinReport {
        files: vec![
            source(&["", "w", "demolib", "src", "lib.rs"], vec![trace(3, 1), trace(1, 2), trace(5, 0)]),
            source(&["", "cargo", "registry", "dep", "lib.rs"], vec![trace(8, 1)]),
            source(&["", "w", "demolib", "src", "unused.rs"], vec![trace(1, 0)]),
            source(&["", "w", "demolib", "src", "empty.rs"], Vec::new()),
            source(&["", "w", "demolib", "src", "twice.rs"], vec![trace(1, 1)]),
            source(&["", "w", "demolib", "src", "twice.rs"], vec![trace(2, 1)]),
        ],
        covered: 0,
        coverable: 0,
    };
    let covered = extract_covered_lines(&report, "demolib");
    assert_eq!(covered.len(), 2);
    assert_eq!(covered.get(&"/w/demolib/src/lib.rs".to_string()).unwrap().to_vec(), vec![1, 3]);
    assert_eq!(covered.get(&"/w/demolib/src/twice.rs".to_string()).unwrap().to_vec(), vec![2]);
    assert!(covered.get(&"/cargo/registry/dep/lib.rs".to_string()).is_none());
    assert!(covered.get(&"/w/demolib/src/unused.rs".to_string()).is_none());

    assert_eq!(extract_covered_lines(&report, "nowhere").len(), 0);
    assert_eq!(extract_covered_lines(&report, "").len(), 3);
}

#[test]
fn executor_is_asked_for_one_test() {
    assert_eq!(
        tarpaulin_args("demolib", "tests::test_foo", "/w/out", "/w/cache", true),
        strings(&[
            "tarpaulin",
            "-p",
            "demolib",
            "--no-fail-fast",
            "--skip-clean",
            "--target-dir",
            "/w/cache",
            "-o",
            "Json",
            "--output-dir",
            "/w/out/tests/test_foo",
            "--",
            "tests::test_foo",
        ])
    );
    let forced = tarpaulin_args("demolib", "t", "out", "cache", false);
    assert_eq!(forced[4], "--force-clean");
    assert_eq!(forced.len(), 13);
}

#[test]
fn each_kind_of_failed_run_has_its_error() {
    let run = TestRun::OutputDirFailed { reason: "Not a directory".to_string() };
    assert_eq!(
        run_isolated_test_coverage("demolib", "tests::test_foo", "/w/out", &run).unwrap_err(),
        Error::Io("Failed to create output directory '/w/out/tests/test_foo': Not a directory".to_string())
    );
    let run = TestRun::SpawnFailed { reason: "No such file or directory".to_string() };
    assert_eq!(
        run_isolated_test_coverage("demolib", "t", "/w/out", &run).unwrap_err(),
        Error::CommandFailed("Failed to execute cargo command: No such file or directory".to_string())
    );
    let run = TestRun::Failed { status: "exit status: 1".to_string(), stderr: "error: x".to_string() };
    assert_eq!(
        run_isolated_test_coverage("demolib", "tests::test_foo", "/w/out", &run).unwrap_err(),
        Error::TarpaulinFailed(
            "Tarpaulin failed for test 'tests::test_foo' with status: exit status: 1\nStderr: error: x"
                .to_string()
        )
    );
    let run = TestRun::ReportUnreadable { reason: "denied".to_string() };
    assert_eq!(
        run_isolated_test_coverage("demolib", "tests::test_foo", "/w/out", &run).unwrap_err(),
        Error::Io(
            "Failed to read tarpaulin report '/w/out/tests/test_foo/tarpaulin-report.json': denied"
                .to_string()
        )
    );
    let run = TestRun::ReportMalformed { reason: "expected value at line 1".to_string() };
    let error = run_isolated_test_coverage("demolib", "t", "/w/out", &run).unwrap_err();
    assert_eq!(error, Error::Json("expected value at line 1".to_string()));
    assert_eq!(error.message(), "JSON error: expected value at line 1");
}

#[test]
fn a_completed_run_gives_its_coverage() {
    let run = TestRun::Completed {
        report: TarpaulinReport {
            files: vec![source(&["demolib", "src", "lib.rs"], vec![trace(2, 1), trace(1, 1)])],
            covered: 2,
            coverable: 2,
        },
    };
    let covered = run_isolated_test_coverage("demolib", "t", "/w/out", &run).unwrap();
    assert_eq!(covered.len(), 1);
    assert_eq!(covered.name_at(0), "demolib/src/lib.rs");
    assert_eq!(covered.value_at(0).to_vec(), vec![1, 2]);
}

#[test]
fn listing_is_asked_quietly() {
    assert_eq!(list_args("demolib"), strings(&["test", "-p", "demolib", "--", "--quiet", "--list"]));
}

#[test]
fn listed_lines_name_the_tests() {
    let output = "tests::test_foo: test\ntests::test_not_bar: test\n\n2 tests, 0 benchmarks\n";
    assert_eq!(parse_test_list(output), strings(&["tests::test_foo", "tests::test_not_bar"]));
    assert_eq!(parse_test_list(""), Vec::<String>::new());
    assert_eq!(parse_test_list("\n\n"), Vec::<String>::new());
    assert_eq!(parse_test_list("a: test"), strings(&["a"]));
    assert_eq!(parse_test_list("  a: test  \r\n\tb: test\r\nc: bench\r\n"), strings(&["a", "b"]));
    assert_eq!(parse_test_list("a: test: test\n"), strings(&["a"]));
    assert_eq!(parse_test_list("a: tests\n"), strings(&["a: tests"]));
    assert_eq!(parse_test_list(": test\n"), strings(&[""]));
    assert_eq!(parse_test_list("x: test\r"), strings(&["x"]));
    assert_eq!(parse_test_list("\u{a0}m::t: test\u{2003}\n"), strings(&["m::t"]));
}

#[test]
fn listing_agrees_with_std_text_functions() {
    for output in [
        "tests::test_foo: test\ntests::test_not_bar: test\n\n2 tests, 0 benchmarks\n",
        "  a: test  \r\n\tb: test\r\nc: bench\r\n",
        "one: test: test: test\r\ntwo: testing\nthree\r: test",
        "x: test\r",
        "\r\n: test\n \n",
    ] {
        let expected: Vec<String> = output
            .lines()
            .filter(|line| line.contains(": test"))
            .map(|line| line.trim().trim_end_matches(": test").to_string())
            .collect();
        assert_eq!(parse_test_list(output), expected);
    }
}

#[test]
fn entries_lose_white_space_and_marks() {
    let line: Vec<char> = "  tests::a: test: test \t".chars().collect();
    assert_eq!(test_entry_of(&line), "tests::a");
    let line: Vec<char> = "   ".chars().collect();
    assert_eq!(test_entry_of(&line), "");
    let line: Vec<char> = "test".chars().collect();
    assert_eq!(test_entry_of(&line), "test");
}

#[test]
fn each_kind_of_failed_listing_has_its_error() {
    let run = ListRun::SpawnFailed { reason: "no cargo".to_string() };
    assert_eq!(
        list_tests(&run).unwrap_err(),
        Error::CommandFailed("Failed to execute 'cargo test --list': no cargo".to_string())
    );
    let run = ListRun::Failed { status: "exit status: 101".to_string(), stderr: "bad".to_string() };
    assert_eq!(
        list_tests(&run).unwrap_err(),
        Error::CommandFailed("cargo test --list failed: exit status: 101\nStderr: bad".to_string())
    );
    let run = ListRun::NotUtf8 { reason: "invalid utf-8 sequence".to_string() };
    let error = list_tests(&run).unwrap_err();
    assert_eq!(error, Error::Utf8("invalid utf-8 sequence".to_string()));
    assert_eq!(error.message(), "UTF-8 error: invalid utf-8 sequence");
    let run = ListRun::Listed { output: "m::a: test\nm::b: test\n".to_string() };
    assert_eq!(list_tests(&run).unwrap(), strings(&["m::a", "m::b"]));
}

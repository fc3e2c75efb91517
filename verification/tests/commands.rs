use isotarp::cli::commands::{
    execute_analyze_command, execute_list_command, select_test_names, summarize, Cli, Commands,
};
use isotarp::coverage::tarpaulin::ListRun;
use isotarp::types::{
    Error, ErrorKind, FileCoverageAnalysis, NameMap, TargetMode, TestCoverageAnalysis,
};

fn strings(list: &[&str]) -> Vec<String> {
    list.iter().map(|item| item.to_string()).collect()
}

fn counts(total: u32, unique: u32) -> TestCoverageAnalysis {
    let mut files = NameMap::new();
    if total > 0 {
        files.insert(
            "a.rs".to_string(),
            FileCoverageAnalysis {
                total_covered_lines: total,
                unique_covered_lines: unique,
                unique_lines: (1..=unique as u64).collect(),
            },
        );
    }
    TestCoverageAnalysis { total_covered_lines: total, unique_covered_lines: unique, files }
}

#[test]
fn patterns_that_match_nothing_end_the_analysis_before_it_starts() {
    let available = strings(&["mod::a", "mod::b"]);
    let result = execute_analyze_command(
        "demolib",
        available,
        Some(strings(&["nonexistent_xyz"])),
        "/w/out",
        TargetMode::default(),
    );
    let error = result.unwrap_err();
    assert_eq!(error.kind(), ErrorKind::Input);
    assert_eq!(error, Error::Input("No matching tests to analyze".to_string()));
    assert!(error.message().contains("No matching tests to analyze"));
}

#[test]
fn an_empty_list_of_patterns_selects_nothing() {
    let result = select_test_names(strings(&["mod::a"]), Some(Vec::new()));
    assert_eq!(result.unwrap_err(), Error::Input("No matching tests to analyze".to_string()));
    let result = select_test_names(Vec::new(), Some(strings(&["*"])));
    assert!(result.is_err());
}

#[test]
fn without_patterns_all_tests_are_analyzed() {
    let available = strings(&["z::last", "a::first"]);
    let selection = select_test_names(available.clone(), None).unwrap();
    assert_eq!(selection.test_names, available);
    assert!(selection.invalid_patterns.is_empty());
    let nothing = select_test_names(Vec::new(), None).unwrap();
    assert!(nothing.test_names.is_empty());
}

#[test]
fn matched_tests_go_on_and_unmatched_patterns_are_handed_back() {
    let available = strings(&["tests::test_foo", "tests::test_not_bar", "other::test_something"]);
    let order = execute_analyze_command(
        "demolib",
        available,
        Some(strings(&["missing", "test_*", "nope::*"])),
        "/w/out",
        TargetMode::One,
    )
    .unwrap();
    assert_eq!(order.invalid_patterns, strings(&["missing", "nope::*"]));
    assert_eq!(order.plan.output_dir, "/w/out");
    let mut run = order.plan.run;
    let mut seen = Vec::new();
    while let Some(dispatch) = run.next_test() {
        assert_eq!(dispatch.target_dir, None);
        seen.push(dispatch.test);
        let index = dispatch.index;
        run.test_finished(index, &isotarp::coverage::tarpaulin::TestRun::SpawnFailed { reason: "x".to_string() });
    }
    assert_eq!(seen, strings(&["other::test_something"]));
}

#[test]
fn selected_tests_run_in_ascending_order() {
    let available = strings(&["tests::b", "tests::a", "other::c"]);
    let selection = select_test_names(available, Some(strings(&["tests::*", "c"]))).unwrap();
    assert_eq!(selection.test_names, strings(&["other::c", "tests::a", "tests::b"]));
    assert!(selection.invalid_patterns.is_empty());
}

#[test]
fn summary_ranks_the_tests_by_their_unique_lines() {
    let mut analysis = NameMap::new();
    analysis.insert("small".to_string(), counts(10, 1));
    analysis.insert("none".to_string(), counts(0, 0));
    analysis.insert("big".to_string(), counts(9, 7));
    analysis.insert("shared".to_string(), counts(4, 0));
    analysis.insert("tie".to_string(), counts(3, 1));
    analysis.insert("also_shared".to_string(), counts(1, 0));
    let summary = summarize(&analysis);
    assert_eq!(summary.guardians, vec![2, 0, 4]);
    assert_eq!(summary.redundant, vec![3, 5]);
    assert_eq!(summary.idle, vec![1]);
    let empty = summarize(&NameMap::new());
    assert!(empty.guardians.is_empty() && empty.redundant.is_empty() && empty.idle.is_empty());
}

#[test]
fn list_command_gives_the_names() {
    let run = ListRun::Listed { output: "tests::test_foo: test\ntests::test_not_bar: test\n".to_string() };
    assert_eq!(
        execute_list_command(&run).unwrap(),
        strings(&["tests::test_foo", "tests::test_not_bar"])
    );
    let run = ListRun::SpawnFailed { reason: "gone".to_string() };
    assert_eq!(execute_list_command(&run).unwrap_err().kind(), ErrorKind::CommandFailed);
}

#[test]
fn commands_carry_their_arguments() {
    let cli = Cli {
        command: Commands::Analyze {
            package: "demolib".to_string(),
            tests: None,
            output_dir: "isotarp-output".to_string(),
            report: "isotarp-analysis.json".to_string(),
            target_mode: TargetMode::default(),
        },
    };
    match cli.command {
        Commands::Analyze { package, tests, target_mode, .. } => {
            assert_eq!(package, "demolib");
            assert_eq!(tests, None);
            assert_eq!(target_mode, TargetMode::Per);
            assert_eq!(target_mode.label(), "per");
            assert_eq!(TargetMode::One.label(), "one");
        }
        Commands::List { .. } => unreachable!(),
    }
    let list = Commands::List { package: "demolib".to_string() };
    assert!(matches!(list, Commands::List { package } if package == "demolib"));
}

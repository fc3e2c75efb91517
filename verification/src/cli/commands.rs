//! The two commands: list the tests of a package, and analyze them.

use crate::coverage::batch::{run_analysis, AnalysisPlan, MAX_WORKERS};
use crate::coverage::tarpaulin::{list_failure, list_tests, listed_tests, ListRun};
use crate::resolve::{is_selected, resolve_test_patterns, unmatched};
use crate::text::{names_ascending, texts};
use crate::types::errors::{Error, ErrorKind, ErrorView};
use crate::types::maps::NameMap;
use crate::types::models::{TargetMode, TestCoverageAnalysis};
use vstd::prelude::*;
use vstd::string::*;

verus! {

/// The command line of the tool.
#[derive(Debug)]
pub struct Cli {
    pub command: Commands,
}

/// What the tool is asked to do.
#[derive(Debug)]
pub enum Commands {
    /// List all tests in a package.
    List {
        /// Package name.
        package: String,
    },
    /// Run analysis on all tests or specific tests.
    Analyze {
        /// Package name.
        package: String,
        /// Specific tests to analyze; all tests where none are given.
        tests: Option<Vec<String>>,
        /// Output directory for intermediate results.
        output_dir: String,
        /// Output file for the analysis result.
        report: String,
        /// How the cache directories of the test runs are managed.
        target_mode: TargetMode,
    },
}

/// The tests that an analysis runs, and the patterns that matched nothing.
#[derive(Debug)]
pub struct Selection {
    /// The names of the tests to analyze.
    pub test_names: Vec<String>,
    /// The patterns that selected no test; a warning names them.
    pub invalid_patterns: Vec<String>,
}

/// The error for a request that selects no test.
pub open spec fn no_match_error() -> ErrorView {
    ErrorView { kind: ErrorKind::Input, detail: "No matching tests to analyze"@ }
}

/// Chooses the tests of an analysis.
///
/// Where no patterns are given, all available tests are analyzed, in their
/// order. Where patterns are given, the tests that they select are
/// analyzed, in ascending order; patterns that select nothing are handed
/// back for a warning. Patterns that select no test at all are an error,
/// and nothing is built or run.
pub fn select_test_names(available_tests: Vec<String>, requested: Option<Vec<String>>) -> (result:
    Result<Selection, Error>)
    ensures
        requested is None ==> result is Ok && result->Ok_0.test_names == available_tests
            && result->Ok_0.invalid_patterns@.len() == 0,
        requested is Some ==> ({
            let available = texts(available_tests@);
            let patterns = texts(requested->0@);
            let none = forall|t: Seq<char>| !is_selected(available, patterns, t);
            &&& none ==> result is Err && result->Err_0@ == no_match_error()
            &&& !none ==> result is Ok && ({
                let selection = result->Ok_0;
                &&& names_ascending(texts(selection.test_names@))
                &&& forall|t: Seq<char>| #[trigger]
                    texts(selection.test_names@).contains(t) <==> is_selected(
                        available,
                        patterns,
                        t,
                    )
                &&& texts(selection.invalid_patterns@) == unmatched(available, patterns)
            })
        }),
{
    match requested {
        None => Ok(Selection { test_names: available_tests, invalid_patterns: Vec::new() }),
        Some(patterns) => {
            let (selected, invalid) = resolve_test_patterns(
                available_tests.as_slice(),
                patterns.as_slice(),
            );
            if selected.len() == 0 {
                proof {
                    assert forall|t: Seq<char>| !is_selected(
                        texts(available_tests@),
                        texts(patterns@),
                        t,
                    ) by {
                        assert(!texts(selected@).contains(t));
                    }
                }
                Err(Error::Input("No matching tests to analyze".to_owned()))
            } else {
                proof {
                    let t = texts(selected@)[0];
                    assert(texts(selected@).contains(t));
                    assert(is_selected(texts(available_tests@), texts(patterns@), t));
                }
                Ok(Selection { test_names: selected, invalid_patterns: invalid })
            }
        },
    }
}

/// What an analysis begins with: the tests chosen, and the plan of their run.
#[derive(Debug)]
pub struct AnalyzeOrder {
    /// The patterns that selected no test; a warning names them.
    pub invalid_patterns: Vec<String>,
    /// The plan of the analysis of the chosen tests.
    pub plan: AnalysisPlan,
}

/// Begins the analysis of a package: chooses the tests among the available
/// ones and plans their run. Patterns that select no test at all are an
/// error, and nothing is built or run.
pub fn execute_analyze_command(
    package: &str,
    available_tests: Vec<String>,
    tests: Option<Vec<String>>,
    output_dir: &str,
    target_mode: TargetMode,
) -> (result: Result<AnalyzeOrder, Error>)
    ensures
        result is Err <==> tests is Some && forall|t: Seq<char>|
            !is_selected(texts(available_tests@), texts(tests->0@), t),
        result is Err ==> result->Err_0@ == no_match_error(),
        result is Ok ==> ({
            let order = result->Ok_0;
            let run = order.plan.run;
            &&& run.wf()
            &&& run.package() == package@
            &&& run.output() == output_dir@
            &&& run.mode() == target_mode
            &&& 1 <= run.limit() <= MAX_WORKERS
            &&& run.next_index() == 0
            &&& run.in_flight() == 0
            &&& run.failure() is None
            &&& order.plan.output_dir@ == output_dir@
            &&& tests is None ==> run.tests() == texts(available_tests@)
                && order.invalid_patterns@.len() == 0
            &&& tests is Some ==> names_ascending(run.tests()) && texts(order.invalid_patterns@)
                == unmatched(texts(available_tests@), texts(tests->0@)) && forall|t: Seq<char>|
                #[trigger] run.tests().contains(t) <==> is_selected(
                    texts(available_tests@),
                    texts(tests->0@),
                    t,
                )
        }),
{
    match select_test_names(available_tests, tests) {
        Err(error) => Err(error),
        Ok(selection) => {
            let plan = run_analysis(
                package,
                selection.test_names.as_slice(),
                output_dir,
                target_mode,
            );
            Ok(AnalyzeOrder { invalid_patterns: selection.invalid_patterns, plan })
        },
    }
}

/// What a test contributes to the batch.
#[derive(Debug, Clone, Copy, PartialEq, Eq, Structural)]
pub enum Standing {
    /// The test covers lines that no other test covers.
    Guardian,
    /// The test covers lines, all of them covered by other tests too.
    Redundant,
    /// The test covers no line.
    Idle,
}

/// The standing of a test with the given analysis.
pub open spec fn standing_of(analysis: TestCoverageAnalysis) -> Standing {
    if analysis.unique_covered_lines > 0 {
        Standing::Guardian
    } else if analysis.total_covered_lines > 0 {
        Standing::Redundant
    } else {
        Standing::Idle
    }
}

/// The tests of an analysis by standing, each test given by its position.
#[derive(Debug)]
pub struct Summary {
    /// The tests with unique coverage, those with more unique lines first.
    pub guardians: Vec<usize>,
    /// The tests with coverage, none of it unique.
    pub redundant: Vec<usize>,
    /// The tests without coverage.
    pub idle: Vec<usize>,
}

/// The positions below `n` of the tests with the given standing, ascending.
pub open spec fn positions_of(tests: Seq<TestCoverageAnalysis>, standing: Standing, n: int) -> Seq<
    usize,
>
    decreases n,
{
    if n <= 0 || n > tests.len() {
        Seq::empty()
    } else if standing_of(tests[n - 1]) == standing {
        positions_of(tests, standing, n - 1).push((n - 1) as usize)
    } else {
        positions_of(tests, standing, n - 1)
    }
}

/// Test `a` is listed before test `b`: it has more unique lines, or as many
/// and stands earlier in the analysis.
pub open spec fn ranks_before(tests: Seq<TestCoverageAnalysis>, a: usize, b: usize) -> bool {
    tests[a as int].unique_covered_lines > tests[b as int].unique_covered_lines || (tests[a as int].unique_covered_lines
        == tests[b as int].unique_covered_lines && a < b)
}

/// `ranked` lists exactly the guardians among the first `n` tests, each
/// before those that it ranks before.
pub open spec fn is_ranking(tests: Seq<TestCoverageAnalysis>, ranked: Seq<usize>, n: int) -> bool {
    &&& forall|k: int|
        0 <= k < ranked.len() ==> (#[trigger] ranked[k]) < n && ranked[k] < tests.len()
            && standing_of(tests[ranked[k] as int]) == Standing::Guardian
    &&& forall|i: int|
        0 <= i < n && i < tests.len() && standing_of(#[trigger] tests[i]) == Standing::Guardian
            ==> ranked.contains(i as usize)
    &&& forall|a: int, b: int|
        0 <= a < b < ranked.len() ==> ranks_before(tests, #[trigger] ranked[a], #[trigger] ranked[b])
}

/// Sorts the tests of an analysis by what they contribute: the tests with
/// unique coverage, those with more unique lines first; the tests with
/// coverage that is not unique; and the tests without coverage.
pub fn summarize(analysis: &NameMap<TestCoverageAnalysis>) -> (summary: Summary)
    ensures
        is_ranking(analysis.values(), summary.guardians@, analysis.values().len() as int),
        summary.redundant@ == positions_of(
            analysis.values(),
            Standing::Redundant,
            analysis.values().len() as int,
        ),
        summary.idle@ == positions_of(
            analysis.values(),
            Standing::Idle,
            analysis.values().len() as int,
        ),
{
    let n = analysis.len();
    let ghost tests = analysis.values();
    let mut guardians: Vec<usize> = Vec::new();
    let mut redundant: Vec<usize> = Vec::new();
    let mut idle: Vec<usize> = Vec::new();
    let mut i: usize = 0;
    while i < n
        invariant
            i <= n,
            n == analysis.names().len(),
            n == tests.len(),
            tests == analysis.values(),
            is_ranking(tests, guardians@, i as int),
            redundant@ == positions_of(tests, Standing::Redundant, i as int),
            idle@ == positions_of(tests, Standing::Idle, i as int),
        decreases n - i,
    {
        let entry = analysis.value_at(i);
        if entry.unique_covered_lines > 0 {
            let key = entry.unique_covered_lines;
            let mut at: usize = 0;
            while at < guardians.len() && analysis.value_at(guardians[at]).unique_covered_lines
                >= key
                invariant
                    at <= guardians.len(),
                    i < n,
                    n == analysis.names().len(),
                    n == tests.len(),
                    tests == analysis.values(),
                    key == tests[i as int].unique_covered_lines,
                    is_ranking(tests, guardians@, i as int),
                    forall|k: int|
                        0 <= k < at ==> tests[(#[trigger] guardians@[k]) as int].unique_covered_lines
                            >= key,
                decreases guardians.len() - at,
            {
                at += 1;
            }
            let ghost before = guardians@;
            guardians.insert(at, i);
            proof {
                let after = guardians@;
                assert(after =~= before.insert(at as int, i));
                assert forall|k: int| 0 <= k < after.len() implies (#[trigger] after[k]) < i + 1
                    && after[k] < tests.len() && standing_of(tests[after[k] as int])
                    == Standing::Guardian by {
                    if k < at {
                        assert(after[k] == before[k]);
                    } else if k > at {
                        assert(after[k] == before[k - 1]);
                    }
                }
                assert forall|j: int|
                    0 <= j < i + 1 && j < tests.len() && standing_of(#[trigger] tests[j])
                        == Standing::Guardian implies after.contains(j as usize) by {
                    if j < i {
                        assert(before.contains(j as usize));
                        let k = choose|k: int| 0 <= k < before.len() && before[k] == j as usize;
                        if k < at {
                            assert(after[k] == j as usize);
                        } else {
                            assert(after[k + 1] == j as usize);
                        }
                    } else {
                        assert(after[at as int] == j as usize);
                    }
                }
                assert forall|a: int, b: int| 0 <= a < b < after.len() implies ranks_before(
                    tests,
                    #[trigger] after[a],
                    #[trigger] after[b],
                ) by {
                    if b < at {
                        assert(after[a] == before[a] && after[b] == before[b]);
                    } else if b == at {
                        assert(after[a] == before[a]);
                        assert(before[a] < i);
                    } else if a == at {
                        assert(after[b] == before[b - 1]);
                        if b - 1 > at {
                            assert(ranks_before(tests, before[at as int], before[b - 1]));
                        }
                    } else if a < at {
                        assert(after[a] == before[a] && after[b] == before[b - 1]);
                    } else {
                        assert(after[a] == before[a - 1] && after[b] == before[b - 1]);
                    }
                }
            }
        } else if entry.total_covered_lines > 0 {
            redundant.push(i);
        } else {
            idle.push(i);
        }
        i += 1;
    }
    Summary { guardians, redundant, idle }
}

/// Lists the tests of a package: the names that the build tool listed, or
/// the error that the listing ended in.
pub fn execute_list_command(run: &ListRun) -> (result: Result<Vec<String>, Error>)
    ensures
        match list_failure(*run) {
            Some(failure) => result is Err && result->Err_0@ == failure,
            None => result is Ok && run is Listed && texts(result->Ok_0@) == listed_tests(
                run->output@,
                0,
            ),
        },
{
    list_tests(run)
}

} // verus!

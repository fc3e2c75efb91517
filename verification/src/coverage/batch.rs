//! The orchestrator of a batch: which test runs next, what becomes of each
//! run, and what the batch ends in.
//!
//! A batch decides; its driver builds the package, runs the tests and
//! reports how each run ended. In the per-test mode up to a fixed number of
//! tests are in flight at once, each with a cache directory of its own; in
//! the single-directory mode one test runs at a time while the directory
//! for the next one is prepared.

use crate::coverage::analysis::{
    analyze_test_coverage, counts_fit, is_test_analysis, within_count_limit,
};
use crate::coverage::tarpaulin::{
    cover_view, extracted, run_failure, run_isolated_test_coverage, TestRun,
};
use crate::text::texts;
use crate::types::errors::{Error, ErrorKind, ErrorView};
use crate::types::maps::NameMap;
use crate::types::models::{IsotarpAnalysis, RawBatchCoverage, TargetMode};
use crate::utils::paths::{target_path, test_target_dir};
use vstd::prelude::*;
use vstd::string::*;

verus! {

/// The most tests that are ever in flight at once.
pub const MAX_WORKERS: usize = 8;

/// `num_cpus::get`: the number of CPUs that the current process may use.
/// It depends on the machine, so nothing is claimed of it.
#[verifier::external_body]
fn available_cpus() -> (cpus: usize) {
    num_cpus::get()
}

/// The size of the worker pool on a machine with `cpus` CPUs: one worker
/// for each CPU, at most [`MAX_WORKERS`] and at least one.
pub open spec fn pool_size(cpus: usize) -> usize {
    if cpus == 0 {
        1
    } else if cpus < MAX_WORKERS {
        cpus
    } else {
        MAX_WORKERS
    }
}

/// The size of the worker pool on a machine with `cpus` CPUs.
pub fn pool_size_for(cpus: usize) -> (size: usize)
    ensures
        size == pool_size(cpus),
        1 <= size <= MAX_WORKERS,
{
    if cpus == 0 {
        1
    } else if cpus < MAX_WORKERS {
        cpus
    } else {
        MAX_WORKERS
    }
}

/// The size of the worker pool on this machine.
pub fn worker_pool_size() -> (size: usize)
    ensures
        1 <= size <= MAX_WORKERS,
{
    pool_size_for(available_cpus())
}

/// Where a test of the batch stands.
#[derive(Debug, Clone, Copy, PartialEq, Eq, Structural)]
pub enum TestStatus {
    /// Not handed out yet.
    Pending,
    /// Handed out, and its run has not been reported.
    Running,
    /// Its run completed and its coverage was taken.
    Succeeded,
    /// Its run failed.
    Failed,
}

/// How many tests are running.
pub open spec fn count_running(status: Seq<TestStatus>) -> nat
    decreases status.len(),
{
    if status.len() == 0 {
        0
    } else {
        count_running(status.drop_last()) + if status.last() == TestStatus::Running {
            1nat
        } else {
            0nat
        }
    }
}

/// Changing the status of one test changes the number of running tests
/// by at most one.
pub proof fn lemma_count_running_update(status: Seq<TestStatus>, i: int, to: TestStatus)
    requires
        0 <= i < status.len(),
    ensures
        count_running(status.update(i, to)) + (if status[i] == TestStatus::Running {
            1nat
        } else {
            0nat
        }) == count_running(status) + (if to == TestStatus::Running {
            1nat
        } else {
            0nat
        }),
        count_running(status) <= status.len(),
    decreases status.len(),
{
    if i == status.len() - 1 {
        assert(status.update(i, to).drop_last() =~= status.drop_last());
        lemma_count_running_bound(status.drop_last());
    } else {
        assert(status.update(i, to).drop_last() =~= status.drop_last().update(i, to));
        lemma_count_running_update(status.drop_last(), i, to);
    }
}

/// No more tests are running than there are tests.
pub proof fn lemma_count_running_bound(status: Seq<TestStatus>)
    ensures
        count_running(status) <= status.len(),
    decreases status.len(),
{
    if status.len() > 0 {
        lemma_count_running_bound(status.drop_last());
    }
}

/// A test handed out to run.
#[derive(Debug, PartialEq, Eq)]
pub struct Dispatch {
    /// The position of the test in the batch.
    pub index: usize,
    /// The name of the test.
    pub test: String,
    /// The cache directory of the test, in the per-test mode. In the
    /// single-directory mode the pipeline says which directory is ready.
    pub target_dir: Option<String>,
    /// In the single-directory mode, the test whose cache directory is to
    /// be prepared while this one runs.
    pub prepare_next: Option<String>,
}

/// What follows the end of a test run.
#[derive(Debug, PartialEq, Eq)]
pub struct Completion {
    /// Whether the report was taken: it is not where the test was not running.
    pub accepted: bool,
    /// The test whose cache directory is to be reclaimed now.
    pub cleanup_test: Option<String>,
    /// Whether the pipeline of the single-directory mode is to be torn down now.
    pub teardown_pipeline: bool,
}

/// What a batch ended in.
#[derive(Debug)]
pub struct BatchOutcome {
    /// The analysis of the whole batch, or the error that ended it.
    pub result: Result<IsotarpAnalysis, Error>,
    /// The tests whose cache directories are to be swept, whatever the result.
    pub sweep: Vec<String>,
}

/// The error for a batch that is asked for its analysis before it is done.
pub open spec fn unfinished_error() -> ErrorView {
    ErrorView { kind: ErrorKind::CommandFailed, detail: "test batch is still running"@ }
}

/// The error for a batch whose line counts exceed the counters.
pub open spec fn overflow_error() -> ErrorView {
    ErrorView { kind: ErrorKind::Json, detail: "coverage report holds too many lines"@ }
}

/// The view of an error that may be there.
pub open spec fn error_view(error: Option<Error>) -> Option<ErrorView> {
    match error {
        Some(e) => Some(e@),
        None => None,
    }
}

/// The run of a batch of tests.
#[derive(Debug)]
pub struct BatchRun {
    package: String,
    output_dir: String,
    tests: Vec<String>,
    mode: TargetMode,
    limit: usize,
    next: usize,
    running: usize,
    status: Vec<TestStatus>,
    collected: RawBatchCoverage,
    failure: Option<Error>,
}

impl BatchRun {
    /// The batch is in order: every test has a status, the tests handed out
    /// are the first ones, and no more tests are running than may.
    pub closed spec fn wf(self) -> bool {
        &&& self.status@.len() == self.tests@.len()
        &&& self.next <= self.tests@.len()
        &&& forall|i: int|
            self.next <= i < self.status@.len() ==> self.status@[i] == TestStatus::Pending
        &&& forall|i: int| 0 <= i < self.next ==> self.status@[i] != TestStatus::Pending
        &&& self.running == count_running(self.status@)
        &&& self.running <= self.limit
        &&& 1 <= self.limit
        &&& (self.mode == TargetMode::One ==> self.limit == 1)
    }

    /// The package under analysis.
    pub closed spec fn package(self) -> Seq<char> {
        self.package@
    }

    /// The output directory.
    pub closed spec fn output(self) -> Seq<char> {
        self.output_dir@
    }

    /// The names of the tests, in the order of the batch.
    pub closed spec fn tests(self) -> Seq<Seq<char>> {
        texts(self.tests@)
    }

    /// The mode of the batch.
    pub closed spec fn mode(self) -> TargetMode {
        self.mode
    }

    /// The most tests that may be in flight at once.
    pub closed spec fn limit(self) -> nat {
        self.limit as nat
    }

    /// The position of the test that is handed out next.
    pub closed spec fn next_index(self) -> nat {
        self.next as nat
    }

    /// Where each test stands.
    pub closed spec fn statuses(self) -> Seq<TestStatus> {
        self.status@
    }

    /// How many tests are in flight.
    pub open spec fn in_flight(self) -> nat {
        count_running(self.statuses())
    }

    /// The coverage collected so far.
    pub closed spec fn collected(self) -> RawBatchCoverage {
        self.collected
    }

    /// The first failure of a test run, if there was one.
    pub closed spec fn failure(self) -> Option<ErrorView> {
        error_view(self.failure)
    }

    /// No test is in flight, and none will be handed out.
    pub open spec fn done(self) -> bool {
        self.in_flight() == 0 && (self.failure() is Some || self.next_index()
            == self.tests().len())
    }

    /// In a batch that is in order no more tests are in flight than may be.
    pub proof fn lemma_bounded_concurrency(self)
        requires
            self.wf(),
        ensures
            self.in_flight() <= self.limit(),
            self.statuses().len() == self.tests().len(),
            self.next_index() <= self.tests().len(),
            self.limit() >= 1,
            self.mode() == TargetMode::One ==> self.limit() == 1,
    {
    }

    /// A batch of the given tests, none of them handed out. In the
    /// single-directory mode one test runs at a time; in the per-test mode
    /// up to `pool` tests do, and one where `pool` is zero.
    pub fn new(
        package_name: &str,
        test_names: &[String],
        output_dir: &str,
        mode: TargetMode,
        pool: usize,
    ) -> (run: BatchRun)
        ensures
            run.wf(),
            run.package() == package_name@,
            run.output() == output_dir@,
            run.tests() == texts(test_names@),
            run.mode() == mode,
            run.limit() == if mode == TargetMode::One || pool == 0 {
                1nat
            } else {
                pool as nat
            },
            run.next_index() == 0,
            run.in_flight() == 0,
            run.failure() is None,
            run.collected()@ == Map::<Seq<char>, crate::types::models::FileCoverageSet>::empty(),
            run.collected().names() == Seq::<Seq<char>>::empty(),
            run.statuses() == Seq::new(test_names@.len(), |i: int| TestStatus::Pending),
    {
        let mut tests: Vec<String> = Vec::new();
        let mut status: Vec<TestStatus> = Vec::new();
        let mut i: usize = 0;
        while i < test_names.len()
            invariant
                i <= test_names.len(),
                tests@.len() == i,
                status@.len() == i,
                forall|k: int| 0 <= k < i ==> (#[trigger] tests@[k])@ == test_names@[k]@,
                forall|k: int| 0 <= k < i ==> status@[k] == TestStatus::Pending,
                count_running(status@) == 0,
            decreases test_names.len() - i,
        {
            tests.push(test_names[i].clone());
            let ghost before = status@;
            status.push(TestStatus::Pending);
            assert(status@.drop_last() =~= before);
            i += 1;
        }
        let limit: usize = match mode {
            TargetMode::One => 1,
            TargetMode::Per => if pool == 0 {
                1
            } else {
                pool
            },
        };
        assert(texts(tests@) =~= texts(test_names@));
        assert(status@ =~= Seq::new(test_names@.len(), |i: int| TestStatus::Pending));
        BatchRun {
            package: package_name.to_owned(),
            output_dir: output_dir.to_owned(),
            tests,
            mode,
            limit,
            next: 0,
            running: 0,
            status,
            collected: NameMap::new(),
            failure: None,
        }
    }

    /// The names of the tests, in the order of the batch.
    pub fn test_names(&self) -> (names: Vec<String>)
        ensures
            texts(names@) == self.tests(),
    {
        let mut names: Vec<String> = Vec::new();
        let mut i: usize = 0;
        while i < self.tests.len()
            invariant
                i <= self.tests.len(),
                names@.len() == i,
                forall|k: int| 0 <= k < i ==> (#[trigger] names@[k])@ == self.tests@[k]@,
            decreases self.tests.len() - i,
        {
            names.push(self.tests[i].clone());
            i += 1;
        }
        assert(texts(names@) =~= texts(self.tests@));
        names
    }

    /// The most tests that may be in flight at once.
    pub fn worker_limit(&self) -> (limit: usize)
        requires
            self.wf(),
        ensures
            limit == self.limit(),
            limit >= 1,
    {
        self.limit
    }

    /// In the single-directory mode, the test whose cache directory is to
    /// be prepared before the first test is handed out.
    pub fn first_preparation(&self) -> (test: Option<String>)
        requires
            self.wf(),
        ensures
            match test {
                Some(name) => self.mode() == TargetMode::One && self.next_index() == 0
                    && self.tests().len() > 0 && name@ == self.tests()[0],
                None => self.mode() == TargetMode::Per || self.next_index() > 0
                    || self.tests().len() == 0,
            },
    {
        match self.mode {
            TargetMode::One => if self.next == 0 && self.tests.len() > 0 {
                Some(self.tests[0].clone())
            } else {
                None
            },
            TargetMode::Per => None,
        }
    }

    /// Whether no test is in flight and none will be handed out.
    pub fn is_done(&self) -> (done: bool)
        requires
            self.wf(),
        ensures
            done == self.done(),
    {
        self.running == 0 && (self.failure.is_some() || self.next == self.tests.len())
    }

    /// Hands out the next test, if one may start: none has failed, fewer
    /// tests are in flight than may be, and a test is left.
    pub fn next_test(&mut self) -> (dispatch: Option<Dispatch>)
        requires
            old(self).wf(),
        ensures
            final(self).wf(),
            final(self).package() == old(self).package(),
            final(self).output() == old(self).output(),
            final(self).tests() == old(self).tests(),
            final(self).mode() == old(self).mode(),
            final(self).limit() == old(self).limit(),
            final(self).failure() == old(self).failure(),
            final(self).collected() == old(self).collected(),
            final(self).in_flight() <= final(self).limit(),
            dispatch is Some <==> old(self).failure() is None && old(self).in_flight() < old(self).limit() && old(self).next_index() < old(self).tests().len(),
            dispatch is None ==> final(self).statuses() == old(self).statuses() && final(self).next_index() == old(self).next_index(),
            dispatch is Some ==> ({
                let d = dispatch->0;
                let at = old(self).next_index() as int;
                &&& d.index == at
                &&& d.test@ == old(self).tests()[at]
                &&& final(self).next_index() == at + 1
                &&& final(self).statuses() == old(self).statuses().update(at, TestStatus::Running)
                &&& final(self).in_flight() == old(self).in_flight() + 1
                &&& match d.target_dir {
                    Some(dir) => old(self).mode() == TargetMode::Per && dir@ == target_path(
                        old(self).output(),
                        old(self).tests()[at],
                    ),
                    None => old(self).mode() == TargetMode::One,
                }
                &&& match d.prepare_next {
                    Some(name) => old(self).mode() == TargetMode::One && at + 1 < old(self).tests().len() && name@ == old(self).tests()[at + 1],
                    None => old(self).mode() == TargetMode::Per || at + 1 >= old(self).tests().len(),
                }
            }),
    {
        if self.failure.is_some() || self.running >= self.limit || self.next >= self.tests.len() {
            return None;
        }
        let index = self.next;
        let test = self.tests[index].clone();
        proof {
            lemma_count_running_update(self.status@, index as int, TestStatus::Running);
        }
        self.status.set(index, TestStatus::Running);
        self.next = index + 1;
        self.running = self.running + 1;
        let target_dir = match self.mode {
            TargetMode::Per => Some(test_target_dir(self.output_dir.as_str(), test.as_str())),
            TargetMode::One => None,
        };
        let prepare_next = match self.mode {
            TargetMode::One => if index + 1 < self.tests.len() {
                Some(self.tests[index + 1].clone())
            } else {
                None
            },
            TargetMode::Per => None,
        };
        Some(Dispatch { index, test, target_dir, prepare_next })
    }

    /// Takes the report of how the run of test `index` ended.
    ///
    /// A run that completed adds the test's coverage to what was collected;
    /// a run that failed is the batch's failure, unless one was recorded
    /// before. Either way the test is no longer in flight and its cache
    /// directory is to be reclaimed; in the single-directory mode a failure
    /// also tears the pipeline down. A report for a test that is not
    /// running changes nothing.
    pub fn test_finished(&mut self, index: usize, run: &TestRun) -> (completion: Completion)
        requires
            old(self).wf(),
        ensures
            final(self).wf(),
            final(self).package() == old(self).package(),
            final(self).output() == old(self).output(),
            final(self).tests() == old(self).tests(),
            final(self).mode() == old(self).mode(),
            final(self).limit() == old(self).limit(),
            final(self).next_index() == old(self).next_index(),
            final(self).in_flight() <= final(self).limit(),
            completion.accepted == (index < old(self).statuses().len() && old(
                self).statuses()[index as int] == TestStatus::Running),
            !completion.accepted ==> final(self).statuses() == old(self).statuses() && final(
                self).failure() == old(self).failure() && final(self).collected() == old(
                self).collected() && completion.cleanup_test is None
                && !completion.teardown_pipeline,
            completion.accepted ==> ({
                let test = old(self).tests()[index as int];
                let failed = run_failure(test, old(self).output(), *run);
                &&& final(self).in_flight() + 1 == old(self).in_flight()
                &&& completion.cleanup_test is Some && completion.cleanup_test->0@ == test
                &&& completion.teardown_pipeline == (failed is Some && old(self).mode()
                    == TargetMode::One)
                &&& final(self).statuses() == old(self).statuses().update(
                    index as int,
                    if failed is Some {
                        TestStatus::Failed
                    } else {
                        TestStatus::Succeeded
                    },
                )
                &&& final(self).failure() == if old(self).failure() is Some {
                    old(self).failure()
                } else {
                    failed
                }
                &&& failed is Some ==> final(self).collected() == old(self).collected()
                &&& failed is None ==> final(self).collected().names() == if old(
                    self).collected().names().contains(test) {
                    old(self).collected().names()
                } else {
                    old(self).collected().names().push(test)
                }
                &&& failed is None ==> run is Completed && final(self).collected()@.dom() == old(
                    self).collected()@.dom().insert(test) && cover_view(
                    final(self).collected()@[test],
                ) == extracted(run->report.files@, old(self).package()) && forall|
                    other: Seq<char>,
                |
                    other != test && old(self).collected()@.contains_key(other) ==> final(
                        self).collected()@[other] == old(self).collected()@[other]
            }),
    {
        if index >= self.status.len() {
            return Completion { accepted: false, cleanup_test: None, teardown_pipeline: false };
        }
        match self.status[index] {
            TestStatus::Running => {},
            _ => {
                return Completion { accepted: false, cleanup_test: None, teardown_pipeline: false };
            },
        }
        let test = self.tests[index].clone();
        let result = run_isolated_test_coverage(
            self.package.as_str(),
            test.as_str(),
            self.output_dir.as_str(),
            run,
        );
        let mut teardown_pipeline = false;
        match result {
            Ok(covered) => {
                proof {
                    lemma_count_running_update(self.status@, index as int, TestStatus::Succeeded);
                }
                self.status.set(index, TestStatus::Succeeded);
                self.collected.insert(test.clone(), covered);
            },
            Err(error) => {
                proof {
                    lemma_count_running_update(self.status@, index as int, TestStatus::Failed);
                }
                self.status.set(index, TestStatus::Failed);
                if self.failure.is_none() {
                    self.failure = Some(error);
                }
                teardown_pipeline = match self.mode {
                    TargetMode::One => true,
                    TargetMode::Per => false,
                };
            },
        }
        self.running = self.running - 1;
        Completion { accepted: true, cleanup_test: Some(test), teardown_pipeline }
    }

    /// Ends the batch.
    ///
    /// A batch that is not done yields no analysis. A batch in which a run
    /// failed ends in the first failure that was recorded, and the coverage
    /// collected from the other tests is discarded. Else the result is the
    /// analysis of the coverage collected, test by test. The cache
    /// directories of all tests are to be swept in every case.
    pub fn finish(self) -> (outcome: BatchOutcome)
        requires
            self.wf(),
        ensures
            texts(outcome.sweep@) == self.tests(),
            !self.done() ==> outcome.result is Err && outcome.result->Err_0@
                == unfinished_error(),
            self.done() && self.failure() is Some ==> outcome.result is Err && Some(
                outcome.result->Err_0@,
            ) == self.failure(),
            self.done() && self.failure() is None && !counts_fit(self.collected())
                ==> outcome.result is Err && outcome.result->Err_0@ == overflow_error(),
            self.done() && self.failure() is None && counts_fit(self.collected())
                ==> outcome.result is Ok && ({
                let analysis = outcome.result->Ok_0;
                &&& analysis.package@ == self.package()
                &&& analysis.tests.names() == self.collected().names()
                &&& analysis.tests.values().len() == self.collected().names().len()
                &&& forall|i: int|
                    0 <= i < self.collected().names().len() ==> is_test_analysis(
                        self.collected(),
                        self.collected().names()[i],
                        #[trigger] analysis.tests.values()[i],
                    )
            }),
    {
        let done = self.is_done();
        let BatchRun { package, tests, collected, failure, .. } = self;
        if !done {
            return BatchOutcome {
                result: Err(Error::CommandFailed("test batch is still running".to_owned())),
                sweep: tests,
            };
        }
        match failure {
            Some(error) => BatchOutcome { result: Err(error), sweep: tests },
            None => {
                if !within_count_limit(&collected) {
                    return BatchOutcome {
                        result: Err(
                            Error::Json("coverage report holds too many lines".to_owned()),
                        ),
                        sweep: tests,
                    };
                }
                let analysis = analyze_test_coverage(&collected);
                BatchOutcome { result: Ok(IsotarpAnalysis { package, tests: analysis }), sweep: tests }
            },
        }
    }
}

/// One invocation of the build tool.
#[derive(Debug)]
pub struct BuildCommand {
    /// The program to run.
    pub program: String,
    /// Its arguments.
    pub args: Vec<String>,
    /// The words that name the invocation in an error.
    pub label: String,
}

/// How an invocation of the build tool ended.
#[derive(Debug)]
pub enum BuildResult {
    /// The tool could not be started.
    SpawnFailed { reason: String },
    /// The tool ran and ended, successfully or not.
    Exited { success: bool },
}

/// The arguments that clean the earlier artifacts of the package.
pub open spec fn clean_args(package: Seq<char>) -> Seq<Seq<char>> {
    seq!["clean"@, "-p"@, package]
}

/// The arguments that build the package with its test binaries.
pub open spec fn build_args(package: Seq<char>) -> Seq<Seq<char>> {
    seq!["build"@, "--tests"@, "-p"@, package]
}

/// The error that the result of a build invocation amounts to, if any.
pub open spec fn build_error(label: Seq<char>, result: BuildResult) -> Option<ErrorView> {
    match result {
        BuildResult::SpawnFailed { reason } => Some(
            ErrorView { kind: ErrorKind::Io, detail: reason@ },
        ),
        BuildResult::Exited { success } => if success {
            None
        } else {
            Some(ErrorView { kind: ErrorKind::CommandFailed, detail: label })
        },
    }
}

/// Judges the result of a build invocation: both invocations must succeed,
/// or the batch ends before any test runs.
pub fn judge_build(command: &BuildCommand, result: &BuildResult) -> (error: Option<Error>)
    ensures
        error_view(error) == build_error(command.label@, *result),
{
    match result {
        BuildResult::SpawnFailed { reason } => Some(Error::Io(reason.clone())),
        BuildResult::Exited { success } => if *success {
            None
        } else {
            Some(Error::CommandFailed(command.label.clone()))
        },
    }
}

/// What the analysis of a package begins with.
#[derive(Debug)]
pub struct AnalysisPlan {
    /// The output directory, which is created first.
    pub output_dir: String,
    /// The invocations of the build tool, in their order: clean, then build.
    pub build: Vec<BuildCommand>,
    /// The master cache directory that the build leaves behind.
    pub master_target_dir: String,
    /// The run of the tests, none of them handed out yet.
    pub run: BatchRun,
}

/// Plans the analysis of the given tests of a package.
///
/// The output directory is created, the package is cleaned and built with
/// its tests, once; then the tests run as the batch hands them out, in the
/// mode chosen, and the batch ends in the analysis or in the first error.
pub fn run_analysis(
    package_name: &str,
    test_names: &[String],
    output_dir: &str,
    target_mode: TargetMode,
) -> (plan: AnalysisPlan)
    ensures
        plan.output_dir@ == output_dir@,
        plan.master_target_dir@ == "target"@,
        plan.build@.len() == 2,
        plan.build@[0].program@ == "cargo"@,
        texts(plan.build@[0].args@) == clean_args(package_name@),
        plan.build@[0].label@ == "cargo clean"@,
        plan.build@[1].program@ == "cargo"@,
        texts(plan.build@[1].args@) == build_args(package_name@),
        plan.build@[1].label@ == "cargo build --tests"@,
        plan.run.wf(),
        plan.run.package() == package_name@,
        plan.run.output() == output_dir@,
        plan.run.tests() == texts(test_names@),
        plan.run.mode() == target_mode,
        1 <= plan.run.limit() <= MAX_WORKERS,
        target_mode == TargetMode::One ==> plan.run.limit() == 1,
        plan.run.next_index() == 0,
        plan.run.in_flight() == 0,
        plan.run.failure() is None,
        plan.run.statuses() == Seq::new(test_names@.len(), |i: int| TestStatus::Pending),
{
    let mut clean: Vec<String> = Vec::new();
    clean.push("clean".to_owned());
    clean.push("-p".to_owned());
    clean.push(package_name.to_owned());
    assert(texts(clean@) =~= clean_args(package_name@));
    let mut build: Vec<String> = Vec::new();
    build.push("build".to_owned());
    build.push("--tests".to_owned());
    build.push("-p".to_owned());
    build.push(package_name.to_owned());
    assert(texts(build@) =~= build_args(package_name@));
    let mut commands: Vec<BuildCommand> = Vec::new();
    commands.push(
        BuildCommand { program: "cargo".to_owned(), args: clean, label: "cargo clean".to_owned() },
    );
    commands.push(
        BuildCommand {
            program: "cargo".to_owned(),
            args: build,
            label: "cargo build --tests".to_owned(),
        },
    );
    let pool = worker_pool_size();
    let run = BatchRun::new(package_name, test_names, output_dir, target_mode, pool);
    AnalysisPlan {
        output_dir: output_dir.to_owned(),
        build: commands,
        master_target_dir: "target".to_owned(),
        run,
    }
}

} // verus!

//! Coverage reports as the executor writes them, and the analysis made of them.

use crate::types::lines::LineSet;
use crate::types::maps::NameMap;
use std::collections::HashSet;
use vstd::prelude::*;
use vstd::string::*;

verus! {

/// The lines of each file that one test covers: from file path to line numbers.
pub type FileCoverageSet = NameMap<LineSet>;

/// The coverage of a whole batch: from test name to the coverage of that test.
pub type RawBatchCoverage = NameMap<FileCoverageSet>;

/// The outcome of one test run: the test's name and what it covers.
pub type TestCoverageResult = (String, FileCoverageSet);

/// The coverage report that the executor writes for one test run.
#[derive(Debug)]
pub struct TarpaulinReport {
    pub files: Vec<SourceFile>,
    pub covered: usize,
    pub coverable: usize,
}

/// One source file of a coverage report.
#[derive(Debug)]
pub struct SourceFile {
    /// The components of the file's path.
    pub path: Vec<String>,
    pub content: String,
    pub traces: Vec<Trace>,
    pub covered: usize,
    pub coverable: usize,
}

/// One instrumented line of a source file.
#[derive(Debug)]
pub struct Trace {
    pub line: u64,
    pub stats: LineStat,
    pub address: HashSet<u64>,
    pub length: u64,
}

/// How often a line was executed.
#[derive(Debug, Clone, Copy, PartialEq, Eq, Structural)]
pub enum LineStat {
    Line(u64),
}

/// Analysis of a single test's coverage.
#[derive(Debug)]
pub struct TestCoverageAnalysis {
    /// Covered lines, summed over the files.
    pub total_covered_lines: u32,
    /// Lines that no other test of the batch covers, summed over the files.
    pub unique_covered_lines: u32,
    /// The files of which the test covers at least one line.
    pub files: NameMap<FileCoverageAnalysis>,
}

/// Analysis of a file's coverage by a test.
#[derive(Debug, PartialEq, Eq)]
pub struct FileCoverageAnalysis {
    pub total_covered_lines: u32,
    pub unique_covered_lines: u32,
    /// The lines that only this test covers, in ascending order.
    pub unique_lines: Vec<u64>,
}

/// Complete analysis output.
#[derive(Debug)]
pub struct IsotarpAnalysis {
    pub package: String,
    pub tests: NameMap<TestCoverageAnalysis>,
}

/// Mode for managing target directories during test execution.
#[derive(Debug, Clone, Copy, PartialEq, Eq, Structural)]
pub enum TargetMode {
    /// A separate target directory for each test: more disk space, tests run
    /// side by side.
    Per,
    /// One target directory reused for all tests: less disk space, tests run
    /// one after the other.
    One,
}

impl Default for TargetMode {
    fn default() -> (mode: TargetMode)
        ensures
            mode == TargetMode::Per,
    {
        TargetMode::Per
    }
}

impl TargetMode {
    /// The name of the mode on the command line.
    pub open spec fn spec_label(self) -> Seq<char> {
        match self {
            TargetMode::Per => "per"@,
            TargetMode::One => "one"@,
        }
    }

    /// The name of the mode on the command line: `per` or `one`.
    pub fn label(&self) -> (out: String)
        ensures
            out@ == self.spec_label(),
    {
        match self {
            TargetMode::Per => "per".to_owned(),
            TargetMode::One => "one".to_owned(),
        }
    }
}

} // verus!

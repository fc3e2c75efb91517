//! Per-test unique line coverage: which source lines does each test of a
//! package cover that no other test covers.
//!
//! The crate holds the decisions of the engine as verified functions on plain
//! values: the coverage differ, the plans for preparing and reclaiming the
//! build-cache directories, the pipeline and batch state machines, and the
//! resolution of test name patterns. Whoever drives it performs the file
//! system and process work that the returned plans name.

pub mod cli;
pub mod coverage;
pub mod resolve;
pub mod text;
pub mod types;
pub mod utils;

pub use coverage::analysis::analyze_test_coverage;
pub use coverage::batch::run_analysis;
pub use coverage::tarpaulin::{extract_covered_lines, run_isolated_test_coverage};
pub use types::errors::Error;
pub use types::models::{
    FileCoverageAnalysis, FileCoverageSet, IsotarpAnalysis, LineStat, RawBatchCoverage, SourceFile,
    TargetMode, TarpaulinReport, TestCoverageAnalysis, TestCoverageResult, Trace,
};
pub use utils::io::sort_analysis;
pub use utils::paths::{
    artifacts_dir, test_name_to_path_segment, test_output_dir, test_report_path, test_target_dir,
};

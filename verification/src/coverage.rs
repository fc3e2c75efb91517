//! Coverage of single tests and what distinguishes it from the rest of the batch.

pub mod analysis;
pub mod batch;
pub mod tarpaulin;

pub use analysis::analyze_test_coverage;
pub use batch::run_analysis;
pub use tarpaulin::{extract_covered_lines, list_tests, run_isolated_test_coverage};

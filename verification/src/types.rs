//! The data that the engine works on.

pub mod errors;
pub mod lines;
pub mod maps;
pub mod models;

pub use errors::{Error, ErrorKind, ErrorView};
pub use lines::LineSet;
pub use maps::NameMap;
pub use models::{
    FileCoverageAnalysis, FileCoverageSet, IsotarpAnalysis, LineStat, RawBatchCoverage, SourceFile,
    TargetMode, TarpaulinReport, TestCoverageAnalysis, TestCoverageResult, Trace,
};

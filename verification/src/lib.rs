//! Test discovery and run decisions of a Python test runner.
//!
//! The library decides which files are collected, which tests a module holds
//! and under which names, which tests a `-k`/`-m` selection keeps, in which
//! order tests are listed, which fixtures are declared and requested, when a
//! sequential run stops, and how a run is tallied and reported.
pub mod collection;
pub mod execution;
pub mod fixtures;
pub mod globs;
pub mod ordering;
pub mod outline;
pub mod paths;
pub mod plugin;
pub mod report;
pub mod selection;
pub mod text;
pub mod types;

pub use collection::{is_ignored, list_markers, selected, Collection, IgnoreRules};
pub use execution::{runs_sequentially, summarize, unique_files, SequentialRun};
pub use fixtures::{list_fixtures, list_fixtures_per_test};
pub use globs::build_ignore_globset;
pub use ordering::order_by_full_name;
pub use outline::{discover_module, ClassMember, DiscoveredTest, ModuleOutline, PyClass, PyExpr, PyFunction, PyStmt};
pub use paths::matches_ignore_path;
pub use plugin::OxtestPlugin;
pub use selection::{match_keyword, match_markexpr};
pub use types::{CaptureMode, FixtureUsage, OxError, RunConfig, TestItem, TestResult, TestSummary};

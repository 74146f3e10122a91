//! The data that discovery and execution pass around.
use vstd::prelude::*;

verus! {

/// How a test's output is captured while it runs.
#[derive(Clone, Copy, Debug, PartialEq, Eq, Structural)]
pub enum CaptureMode {
    Fd,
    Sys,
    No,
    TeeSys,
}

impl CaptureMode {
    /// The variant's name, as the session configuration reports it.
    pub open spec fn spec_name(self) -> Seq<char> {
        match self {
            CaptureMode::Fd => "Fd"@,
            CaptureMode::Sys => "Sys"@,
            CaptureMode::No => "No"@,
            CaptureMode::TeeSys => "TeeSys"@,
        }
    }

    /// The variant's name.
    pub fn name(&self) -> (r: String)
        ensures
            r@ == self.spec_name(),
    {
        match self {
            CaptureMode::Fd => "Fd".to_owned(),
            CaptureMode::Sys => "Sys".to_owned(),
            CaptureMode::No => "No".to_owned(),
            CaptureMode::TeeSys => "TeeSys".to_owned(),
        }
    }
}

/// The options of one collection or run.
#[derive(Clone, Debug)]
pub struct RunConfig {
    pub k_expr: Option<String>,
    pub m_expr: Option<String>,
    pub exitfirst: bool,
    pub maxfail: Option<usize>,
    pub jobs: usize,
    pub ignore: Vec<String>,
    pub ignore_glob: Vec<String>,
    pub capture: CaptureMode,
    pub collect_only: bool,
    pub quiet: bool,
    pub verbose: u8,
    pub strict: bool,
    pub strict_markers: bool,
    pub strict_config: bool,
}

/// One collected test.
#[derive(Clone, Debug)]
pub struct TestItem {
    pub file: String,
    pub name: String,
    pub full_name: String,
    pub marks: Vec<String>,
    pub extra_keywords: Vec<String>,
}

/// The outcome of one test.
#[derive(Clone, Debug)]
pub struct TestResult {
    pub file: String,
    pub full_name: String,
    pub passed: bool,
    pub output: String,
    pub marks: Vec<String>,
}

/// The outcomes of a run and their tally.
#[derive(Clone, Debug)]
pub struct TestSummary {
    pub results: Vec<TestResult>,
    pub passed: usize,
    pub failed: usize,
}

/// The fixtures that one test asks for.
#[derive(Clone, Debug)]
pub struct FixtureUsage {
    pub test: String,
    pub fixtures: Vec<String>,
}

/// Why collection could not start.
#[derive(Clone, Debug)]
pub enum OxError {
    /// An `--ignore-glob` pattern is not a valid glob.
    InvalidGlobPattern { pattern: String, detail: String },
    /// The ignore-glob patterns could not be combined into one matcher.
    InvalidGlobSet { detail: String },
}

/// The texts of a vector of strings.
pub open spec fn texts(v: Seq<String>) -> Seq<Seq<char>> {
    v.map_values(|s: String| s@)
}

} // verus!

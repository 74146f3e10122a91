//! The extension points that plugins implement.
use vstd::prelude::*;
use crate::types::{RunConfig, TestItem, TestResult};

verus! {

/// A plugin: it may adjust the configuration before collection, reshape the
/// collected tests, and observe each test before and after it runs.  Every
/// hook but `name` does nothing unless the plugin overrides it.
pub trait OxtestPlugin: Send + Sync {
    /// The plugin's name.
    fn name(&self) -> &'static str;

    /// Adjusts the configuration before collection or a run.
    fn configure(&self, _config: &mut RunConfig) {
    }

    /// Reshapes the collected tests.
    fn collect(&self, _tests: &mut Vec<TestItem>) {
    }

    /// Observes a test about to run.
    fn before_test(&self, _test: &TestItem) {
    }

    /// Observes a test and its outcome.
    fn after_test(&self, _test: &TestItem, _result: &TestResult) {
    }
}

} // verus!

use oxtest::execution::result_for;
use oxtest::{
    runs_sequentially, summarize, unique_files, CaptureMode, RunConfig, SequentialRun, TestItem,
    TestResult, TestSummary,
};

fn config() -> RunConfig {
    RunConfig {
        k_expr: None,
        m_expr: None,
        exitfirst: false,
        maxfail: None,
        jobs: 4,
        ignore: Vec::new(),
        ignore_glob: Vec::new(),
        capture: CaptureMode::No,
        collect_only: false,
        quiet: false,
        verbose: 0,
        strict: false,
        strict_markers: false,
        strict_config: false,
    }
}

fn item(file: &str, name: &str) -> TestItem {
    TestItem {
        file: file.to_string(),
        name: name.to_string(),
        full_name: name.to_string(),
        marks: vec!["smoke".to_string()],
        extra_keywords: vec![],
    }
}

fn outcome(name: &str, passed: bool) -> TestResult {
    TestResult {
        file: "t.py".to_string(),
        full_name: name.to_string(),
        passed,
        output: if passed { String::new() } else { "boom\n  \n".to_string() },
        marks: vec![],
    }
}

fn drive(config: &RunConfig, outcomes: Vec<bool>) -> Vec<TestResult> {
    let mut run = SequentialRun::new(config);
    for (i, passed) in outcomes.into_iter().enumerate() {
        if !run.record(outcome(&format!("test_{i}"), passed)) {
            break;
        }
    }
    run.finish()
}

#[test]
fn parallel_only_without_early_stop_and_with_several_jobs() {
    let mut c = config();
    assert!(!runs_sequentially(&c));
    c.jobs = 1;
    assert!(runs_sequentially(&c));
    c.jobs = 0;
    assert!(runs_sequentially(&c));
    c.jobs = 4;
    c.exitfirst = true;
    assert!(runs_sequentially(&c));
    c.exitfirst = false;
    c.maxfail = Some(3);
    assert!(runs_sequentially(&c));
}

#[test]
fn exitfirst_stops_after_first_failure() {
    let mut c = config();
    c.exitfirst = true;
    let results = drive(&c, vec![true, true, false, true, false]);
    assert_eq!(results.len(), 3);
    assert!(!results[2].passed);
    let all = drive(&c, vec![true, true]);
    assert_eq!(all.len(), 2);
}

#[test]
fn maxfail_stops_after_that_many_failures() {
    let mut c = config();
    c.maxfail = Some(2);
    let results = drive(&c, vec![false, true, false, false, true]);
    assert_eq!(results.len(), 3);
    c.maxfail = Some(0);
    let results = drive(&c, vec![true, true]);
    assert_eq!(results.len(), 1);
}

#[test]
fn summary_counts_passed_and_failed() {
    let summary = summarize(vec![outcome("a", true), outcome("b", false), outcome("c", true)]);
    assert_eq!(summary.passed, 2);
    assert_eq!(summary.failed, 1);
    assert_eq!(summary.results.len(), 3);
    let empty = TestSummary::empty();
    assert_eq!((empty.passed, empty.failed, empty.results.len()), (0, 0, 0));
}

#[test]
fn summary_text_matches_report_format() {
    let summary = summarize(vec![outcome("test_a", true), outcome("test_b", false)]);
    assert_eq!(
        summary.summary_text(),
        "ok t.py:test_a\nFAILED t.py:test_b\nboom\n\n\nSummary: 1 passed, 1 failed\n"
    );
}

#[test]
fn result_copies_test_identity() {
    let t = item("dir/test_x.py", "test_x");
    let r = result_for(&t, false, "out".to_string());
    assert_eq!(r.file, "dir/test_x.py");
    assert_eq!(r.full_name, "test_x");
    assert!(!r.passed);
    assert_eq!(r.output, "out");
    assert_eq!(r.marks, vec!["smoke".to_string()]);
}

#[test]
fn modules_imported_once_each_in_order() {
    let tests = vec![item("b.py", "t1"), item("a.py", "t2"), item("b.py", "t3"), item("c.py", "t4")];
    assert_eq!(
        unique_files(&tests),
        vec!["b.py".to_string(), "a.py".to_string(), "c.py".to_string()]
    );
}

#[test]
fn capture_mode_names() {
    assert_eq!(CaptureMode::Fd.name(), "Fd");
    assert_eq!(CaptureMode::Sys.name(), "Sys");
    assert_eq!(CaptureMode::No.name(), "No");
    assert_eq!(CaptureMode::TeeSys.name(), "TeeSys");
}

#[test]
fn decimal_rendering() {
    assert_eq!(oxtest::text::decimal_text(0), "0");
    assert_eq!(oxtest::text::decimal_text(907), "907");
}

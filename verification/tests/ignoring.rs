use oxtest::paths::has_py_extension;
use oxtest::{
    build_ignore_globset, is_ignored, matches_ignore_path, CaptureMode, Collection, DiscoveredTest, IgnoreRules, OxError,
    RunConfig,
};

fn config(ignore: &[&str], globs: &[&str]) -> RunConfig {
    RunConfig {
        k_expr: None,
        m_expr: None,
        exitfirst: false,
        maxfail: None,
        jobs: 1,
        ignore: ignore.iter().map(|s| s.to_string()).collect(),
        ignore_glob: globs.iter().map(|s| s.to_string()).collect(),
        capture: CaptureMode::No,
        collect_only: false,
        quiet: false,
        verbose: 0,
        strict: false,
        strict_markers: false,
        strict_config: false,
    }
}

#[test]
fn ignore_entries_match_whole_components() {
    assert!(matches_ignore_path("root/sub/test_a.py", "root", "sub"));
    assert!(!matches_ignore_path("root/subway/test_a.py", "root", "sub"));
    assert!(matches_ignore_path("/abs/root/x.py", "elsewhere", "/abs/root"));
    assert!(!matches_ignore_path("other/x.py", "root", "x.py"));
}

#[test]
fn python_extension_detection() {
    assert!(has_py_extension("a/b/test_x.py"));
    assert!(!has_py_extension("a/b/test_x.pyc"));
    assert!(!has_py_extension("a/.py"));
    assert!(!has_py_extension("a/b"));
}

#[test]
fn invalid_glob_is_reported() {
    match build_ignore_globset(&vec!["*.py".to_string(), "a[".to_string(), "{".to_string()]) {
        Err(OxError::InvalidGlobPattern { pattern, .. }) => assert_eq!(pattern, "a["),
        _ => panic!("expected an invalid pattern"),
    }
    assert!(IgnoreRules::new(".", &config(&[], &["a["])).is_err());
}

#[test]
fn globs_and_paths_exclude_files() {
    let set = build_ignore_globset(&vec!["**/skip_*.py".to_string()]).ok().unwrap();
    assert!(is_ignored("root/skip_me.py", "root", &vec![], &set));
    assert!(!is_ignored("root/test_me.py", "root", &vec![], &set));
    assert!(is_ignored("root/vendor/test_me.py", "root", &vec!["vendor".to_string()], &set));

    let rules = IgnoreRules::new("root", &config(&["vendor"], &["**/skip_*.py"])).ok().unwrap();
    assert!(rules.collects("root/test_a.py", true));
    assert!(!rules.collects("root/test_a.py", false));
    assert!(!rules.collects("root/test_a.txt", true));
    assert!(!rules.collects("root/vendor/test_a.py", true));
    assert!(!rules.collects("root/skip_a.py", true));
}

fn found(name: &str, marks: &[&str]) -> DiscoveredTest {
    DiscoveredTest {
        name: name.to_string(),
        marks: marks.iter().map(|s| s.to_string()).collect(),
        extra_keywords: vec![],
    }
}

#[test]
fn collection_keeps_discovery_order_and_filters() {
    let mut all = Collection::new("root", &config(&[], &[])).ok().unwrap();
    all.add_file_tests(&config(&[], &[]), "root/test_a.py", true, vec![found("test_b", &[]), found("test_a", &["slow"])]);
    all.add_file_tests(&config(&[], &[]), "root/test_c.py", true, vec![found("test_c", &[])]);
    let tests = all.into_tests();
    let names: Vec<(&str, &str)> = tests.iter().map(|t| (t.file.as_str(), t.full_name.as_str())).collect();
    assert_eq!(
        names,
        vec![("root/test_a.py", "test_b"), ("root/test_a.py", "test_a"), ("root/test_c.py", "test_c")]
    );
    assert_eq!(tests[1].marks, vec!["slow".to_string()]);

    let mut slow_only = config(&[], &[]);
    slow_only.m_expr = Some("slow".to_string());
    let mut some = Collection::new("root", &slow_only).ok().unwrap();
    some.add_file_tests(&slow_only, "root/test_a.py", true, vec![found("test_b", &[]), found("test_a", &["slow"])]);
    let tests = some.into_tests();
    assert_eq!(tests.len(), 1);
    assert_eq!(tests[0].name, "test_a");

    assert!(Collection::new("root", &config(&[], &["a["])).is_err());

    // Entries the rules do not collect add nothing.
    let mut none = Collection::new("root", &config(&["vendor"], &["**/skip_*.py"])).ok().unwrap();
    none.add_file_tests(&config(&[], &[]), "root/vendor/test_a.py", true, vec![found("test_a", &[])]);
    none.add_file_tests(&config(&[], &[]), "root/skip_a.py", true, vec![found("test_a", &[])]);
    none.add_file_tests(&config(&[], &[]), "root/test_a.txt", true, vec![found("test_a", &[])]);
    none.add_file_tests(&config(&[], &[]), "root/test_a.py", false, vec![found("test_a", &[])]);
    assert!(none.into_tests().is_empty());
}

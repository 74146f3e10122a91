use oxtest::selection::{expression_terms, expression_verdict, is_admitted, keyword_context, tokenize};
use oxtest::{list_markers, match_keyword, match_markexpr, order_by_full_name, selected, CaptureMode, RunConfig, TestItem};

fn item(file: &str, name: &str, marks: &[&str]) -> TestItem {
    TestItem {
        file: file.to_string(),
        name: name.to_string(),
        full_name: name.to_string(),
        marks: marks.iter().map(|m| m.to_string()).collect(),
        extra_keywords: vec![name.to_string()],
    }
}

fn strings(v: &[&str]) -> Vec<String> {
    v.iter().map(|s| s.to_string()).collect()
}

#[test]
fn terms_follow_identifier_pattern() {
    assert_eq!(
        expression_terms("not slow and (x1 or 2abc) or _p"),
        strings(&["not", "slow", "and", "x1", "or", "abc", "or", "_p"])
    );
    assert_eq!(expression_terms(""), Vec::<String>::new());
}

#[test]
fn keyword_context_binds_each_term_once() {
    let (names, values) = keyword_context("Values or values and not Smoke", "test_values[0]", &strings(&["slow"]));
    assert_eq!(names, strings(&["Values", "values", "Smoke"]));
    assert_eq!(values, vec![true, true, false]);
}

#[test]
fn verdict_of_expression_outcomes() {
    assert!(expression_verdict("", None));
    assert!(!expression_verdict("x", None));
    assert!(!expression_verdict("x", Some(false)));
    assert!(expression_verdict("x", Some(true)));
}

#[test]
fn keyword_expressions_select_by_substring() {
    assert!(match_keyword("", "anything", &vec![]));
    assert!(match_keyword("values", "test_values[1]", &vec![]));
    assert!(!match_keyword("values", "test_smoke", &vec![]));
    assert!(match_keyword("not values", "test_smoke", &vec![]));
    assert!(match_keyword("smoke and not slow", "test_x", &strings(&["SMOKE"])));
    assert!(!match_keyword("(", "test_x", &vec![]));
}

#[test]
fn mark_expressions_select_by_marks() {
    assert!(match_markexpr("", &vec![]));
    assert!(match_markexpr("smoke", &strings(&["smoke"])));
    assert!(!match_markexpr("slow", &strings(&["smoke"])));
    assert!(match_markexpr("smoke or slow", &strings(&["smoke"])));
    assert!(match_markexpr("slow or smoke", &strings(&["smoke"])));
    assert!(match_markexpr("not slow", &strings(&[])));
    assert!(!match_markexpr("smoke", &strings(&[])));
    assert!(match_markexpr("smoke or slow", &strings(&["slow"])));
}

#[test]
fn config_filters_combine() {
    let mut config = RunConfig {
        k_expr: Some("values".into()),
        m_expr: None,
        exitfirst: false,
        maxfail: None,
        jobs: 1,
        ignore: Vec::new(),
        ignore_glob: Vec::new(),
        capture: CaptureMode::No,
        collect_only: false,
        quiet: false,
        verbose: 0,
        strict: false,
        strict_markers: false,
        strict_config: false,
    };
    assert!(selected(&config, &item("t.py", "test_values", &[])));
    assert!(!selected(&config, &item("t.py", "test_smoke", &["smoke"])));
    config.k_expr = None;
    config.m_expr = Some("smoke".into());
    assert!(!selected(&config, &item("t.py", "test_values", &[])));
    assert!(selected(&config, &item("t.py", "test_smoke", &["smoke"])));
}

#[test]
fn ordering_is_stable_for_equal_names() {
    let items = vec![
        item("b.py", "test_z", &[]),
        item("a.py", "test_one", &[]),
        item("c.py", "TestExample.test_two", &[]),
        item("d.py", "test_one", &[]),
    ];
    let ordered = order_by_full_name(items);
    let got: Vec<(String, String)> = ordered.iter().map(|t| (t.full_name.clone(), t.file.clone())).collect();
    assert_eq!(
        got,
        vec![
            ("TestExample.test_two".to_string(), "c.py".to_string()),
            ("test_one".to_string(), "a.py".to_string()),
            ("test_one".to_string(), "d.py".to_string()),
            ("test_z".to_string(), "b.py".to_string()),
        ]
    );
}

#[test]
fn markers_are_sorted_and_unique() {
    let tests = vec![item("a.py", "t1", &["slow", "smoke"]), item("a.py", "t2", &["alpha", "slow"]), item("b.py", "t3", &[])];
    assert_eq!(list_markers(&tests), strings(&["alpha", "slow", "smoke"]));
}

#[test]
fn expressions_may_begin_with_blanks() {
    assert!(match_keyword("  values", "test_values", &vec![]));
    assert!(match_markexpr("\tsmoke", &strings(&["smoke"])));
}

#[test]
fn single_name_and_negated_name_expressions() {
    // A plain name: selected exactly when it occurs, ignoring case.
    assert!(match_keyword("VALUES", "test_values[1]", &strings(&[])));
    assert!(!match_keyword("smoke", "test_values[1]", &strings(&["slow"])));
    assert!(match_keyword("slow", "test_values[1]", &strings(&["Slow"])));
    // `not NAME`: the opposite.
    assert!(!match_keyword("not values", "test_values[1]", &strings(&[])));
    assert!(match_keyword("not smoke", "test_values[1]", &strings(&["slow"])));
    // A mark: selected exactly when the test carries it.
    assert!(match_markexpr("slow", &strings(&["fast", "slow"])));
    assert!(!match_markexpr("slow", &strings(&["fast"])));
    // `not MARK`: the tests without that mark.
    assert!(!match_markexpr("not slow", &strings(&["slow"])));
    assert!(match_markexpr("not slow", &strings(&["fast"])));
}

#[test]
fn expressions_follow_the_grammar() {
    // Precedence: `not` over `and` over `or`, parentheses first.
    assert!(match_markexpr("a or b and c", &strings(&["a"])));
    assert!(!match_markexpr("(a or b) and c", &strings(&["a"])));
    assert!(match_markexpr("not a and not b", &strings(&["c"])));
    assert!(!match_markexpr("not (a or c)", &strings(&["c"])));
    assert!(match_markexpr("True", &strings(&[])));
    assert!(!match_markexpr("False or x", &strings(&[])));
    assert!(match_keyword("(values)and(not smoke)", "test_values", &vec![]));
    // Text outside the grammar selects no test.
    assert!(!match_keyword("values and", "test_values", &vec![]));
    assert!(!match_keyword("values in x", "test_values", &vec![]));
    assert!(!match_keyword("values == 1", "test_values", &vec![]));
    assert!(!match_keyword("   ", "test_values", &vec![]));
    assert!(!match_markexpr("(a", &strings(&["a"])));
    assert!(!match_markexpr("a)(", &strings(&["a"])));
    assert!(!match_markexpr("None", &strings(&[])));
    assert!(!match_markexpr("__debug__", &strings(&["__debug__"])));
    assert!(match_markexpr("_p", &strings(&["_p"])));
}

#[test]
fn expression_admission_and_tokens() {
    assert_eq!(tokenize(" not(a)\tor b1"), Some(strings(&["not", "(", "a", ")", "or", "b1"])));
    assert_eq!(tokenize("a == b"), None);
    assert!(is_admitted("not not (a and (b or c))"));
    assert!(!is_admitted("a b"));
    assert!(!is_admitted("()"));
    assert!(!is_admitted("if"));
}

#[test]
fn white_space_numerals_and_python_limits() {
    // Python's white space: a trailing line break, form feeds, line breaks inside parentheses.
    assert!(match_keyword("a\n", "a", &vec![]));
    assert!(match_markexpr("a\n", &strings(&["a"])));
    assert!(match_markexpr("a\x0cor b", &strings(&["b"])));
    assert!(match_markexpr("(a\r\nor b)", &strings(&["b"])));
    // A line break outside parentheses is a syntax error to Python: nothing is selected.
    assert!(!match_markexpr("a\nor b", &strings(&["a"])));
    // Numerals and None.
    assert!(match_markexpr("a or 1", &strings(&[])));
    assert!(!match_markexpr("a or 0", &strings(&[])));
    assert!(!match_markexpr("None or a", &strings(&[])));
    assert!(match_markexpr("not None", &strings(&[])));
    assert!(!match_markexpr("007", &strings(&[])));
    assert!(!match_markexpr("1a", &strings(&[])));
    // Nesting beyond Python's parser limit selects nothing; within it, the value counts.
    let deep = |n: usize| format!("{}a{}", "(".repeat(n), ")".repeat(n));
    assert!(match_markexpr(&deep(50), &strings(&["a"])));
    assert!(!match_markexpr(&deep(300), &strings(&["a"])));
}

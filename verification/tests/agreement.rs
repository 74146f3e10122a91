use oxtest::{discover_module, list_fixtures, list_fixtures_per_test, CaptureMode, ClassMember, ModuleOutline, PyClass, PyExpr, PyFunction, PyStmt, RunConfig};
use serde_json::Value;
use std::collections::BTreeSet;

// The sample module:
//
//     import pytest
//     import cobratest
//     from pytest import mark, fixture
//
//     @pytest.fixture
//     def base():
//         return 1
//
//     @fixture()
//     def _hidden():
//         return 2
//
//     @mark.fixture
//     def odd():
//         return 3
//
//     @pytest.mark.smoke
//     @pytest.mark.parametrize("x", [1, 2, 3])
//     def test_values(x, base, tmp_path, _hidden):
//         pass
//
//     @pytest.mark.parametrize("y", [])
//     @cobratest.mark.parametrize("z", [4, 5])
//     def test_second(z):
//         pass
//
//     @mark.slow()
//     def test_plain(base, unknown):
//         pass
//
//     def helper_test():
//         pass
//
//     @pytest.mark.cls
//     class TestGroup:
//         @pytest.fixture
//         def inner(self):
//             return 5
//
//         @pytest.mark.parametrize(("a", "b"), [(1, 2)])
//         @pytest.mark.fast
//         def test_method(self, a, b, inner):
//             pass
//
//         def test_other(self, base):
//             pass
//
//         def not_a_test(self):
//             pass
//
//     class Helper:
//         @cobratest.fixture
//         def util(self):
//             pass
//
//         def test_ignored(self):
//             pass
//
//     class TestEmpty:
//         x = 1

// The outline that the Python side prints for a sample module, and the tests,
// fixtures (declared ones, then the built-in ones) and fixture requests that
// Python-side collection of that module is expected to report.
const OUTLINE: &str = r##"["Other", "Other", "Other", {"Function": {"name": "base", "decorators": [{"Attribute": [{"Name": "pytest"}, "fixture"]}], "params": []}}, {"Function": {"name": "_hidden", "decorators": [{"Call": [{"Name": "fixture"}, []]}], "params": []}}, {"Function": {"name": "odd", "decorators": [{"Attribute": [{"Name": "mark"}, "fixture"]}], "params": []}}, {"Function": {"name": "test_values", "decorators": [{"Attribute": [{"Attribute": [{"Name": "pytest"}, "mark"]}, "smoke"]}, {"Call": [{"Attribute": [{"Attribute": [{"Name": "pytest"}, "mark"]}, "parametrize"]}, ["Other", {"List": 3}]]}], "params": ["x", "base", "tmp_path", "_hidden"]}}, {"Function": {"name": "test_second", "decorators": [{"Call": [{"Attribute": [{"Attribute": [{"Name": "pytest"}, "mark"]}, "parametrize"]}, ["Other", {"List": 0}]]}, {"Call": [{"Attribute": [{"Attribute": [{"Name": "cobratest"}, "mark"]}, "parametrize"]}, ["Other", {"List": 2}]]}], "params": ["z"]}}, {"Function": {"name": "test_plain", "decorators": [{"Call": [{"Attribute": [{"Name": "mark"}, "slow"]}, []]}], "params": ["base", "unknown"]}}, {"Function": {"name": "helper_test", "decorators": [], "params": []}}, {"Class": {"name": "TestGroup", "decorators": [{"Attribute": [{"Attribute": [{"Name": "pytest"}, "mark"]}, "cls"]}], "body": [{"Method": {"name": "inner", "decorators": [{"Attribute": [{"Name": "pytest"}, "fixture"]}], "params": ["self"]}}, {"Method": {"name": "test_method", "decorators": [{"Call": [{"Attribute": [{"Attribute": [{"Name": "pytest"}, "mark"]}, "parametrize"]}, ["Other", {"List": 1}]]}, {"Attribute": [{"Attribute": [{"Name": "pytest"}, "mark"]}, "fast"]}], "params": ["self", "a", "b", "inner"]}}, {"Method": {"name": "test_other", "decorators": [], "params": ["self", "base"]}}, {"Method": {"name": "not_a_test", "decorators": [], "params": ["self"]}}]}}, {"Class": {"name": "Helper", "decorators": [], "body": [{"Method": {"name": "util", "decorators": [{"Attribute": [{"Name": "cobratest"}, "fixture"]}], "params": ["self"]}}, {"Method": {"name": "test_ignored", "decorators": [], "params": ["self"]}}]}}, {"Class": {"name": "TestEmpty", "decorators": [], "body": ["Other"]}}]"##;
const PY_DISCOVER: &str = r##"[{"name": "test_values[0]", "marks": ["smoke", "parametrize"], "extra_keywords": ["smoke", "test_values[0]", "parametrize"]}, {"name": "test_values[1]", "marks": ["smoke", "parametrize"], "extra_keywords": ["smoke", "test_values[1]", "parametrize"]}, {"name": "test_values[2]", "marks": ["smoke", "parametrize"], "extra_keywords": ["parametrize", "smoke", "test_values[2]"]}, {"name": "test_second[0]", "marks": ["parametrize", "parametrize"], "extra_keywords": ["test_second[0]", "parametrize"]}, {"name": "test_second[1]", "marks": ["parametrize", "parametrize"], "extra_keywords": ["test_second[1]", "parametrize"]}, {"name": "test_plain", "marks": ["slow"], "extra_keywords": ["test_plain", "slow"]}, {"name": "TestGroup.test_method[0]", "marks": ["parametrize", "fast", "cls"], "extra_keywords": ["TestGroup", "TestGroup.test_method[0]", "test_method[0]", "fast", "parametrize", "cls"]}, {"name": "TestGroup.test_other", "marks": ["cls"], "extra_keywords": ["TestGroup", "test_other", "TestGroup.test_other", "cls"]}]"##;
const PY_FIXTURES: &str = r##"["base", "_hidden", "odd", "TestGroup.inner", "inner", "Helper.util", "util", "capfd", "capfdbinary", "caplog", "capsys", "capsysbinary", "capteesys", "cobratestconfig", "cobratester", "doctest_namespace", "monkeypatch", "record_property", "record_testsuite_property", "recwarn", "request", "subtests", "testdir", "tmp_path", "tmp_path_factory", "tmpdir", "tmpdir_factory"]"##;
const PY_FIXTURES_PER_TEST: &str = r##"[{"name": "test_values", "fixtures": ["base", "tmp_path", "_hidden"]}, {"name": "test_second", "fixtures": []}, {"name": "test_plain", "fixtures": ["base"]}, {"name": "TestGroup.test_method", "fixtures": ["inner"]}, {"name": "TestGroup.test_other", "fixtures": ["base"]}]"##;
const BUILTINS: usize = 20;

fn config(verbose: u8) -> RunConfig {
    RunConfig {
        k_expr: None,
        m_expr: None,
        exitfirst: false,
        maxfail: None,
        jobs: 1,
        ignore: Vec::new(),
        ignore_glob: Vec::new(),
        capture: CaptureMode::No,
        collect_only: false,
        quiet: false,
        verbose,
        strict: false,
        strict_markers: false,
        strict_config: false,
    }
}

fn strings(v: &Value) -> Vec<String> {
    v.as_array().unwrap().iter().map(|s| s.as_str().unwrap().to_string()).collect()
}

fn expr(v: &Value) -> PyExpr {
    if v.as_str() == Some("Other") {
        return PyExpr::Other;
    }
    let o = v.as_object().unwrap();
    if let Some(id) = o.get("Name") {
        PyExpr::Name(id.as_str().unwrap().to_string())
    } else if let Some(a) = o.get("Attribute") {
        PyExpr::Attribute(Box::new(expr(&a[0])), a[1].as_str().unwrap().to_string())
    } else if let Some(c) = o.get("Call") {
        PyExpr::Call(Box::new(expr(&c[0])), c[1].as_array().unwrap().iter().map(expr).collect())
    } else {
        PyExpr::List(o["List"].as_u64().unwrap() as usize)
    }
}

fn function(v: &Value) -> PyFunction {
    PyFunction {
        name: v["name"].as_str().unwrap().to_string(),
        decorators: v["decorators"].as_array().unwrap().iter().map(expr).collect(),
        params: strings(&v["params"]),
    }
}

fn outline() -> ModuleOutline {
    let body: Value = serde_json::from_str(OUTLINE).unwrap();
    let body = body
        .as_array()
        .unwrap()
        .iter()
        .map(|s| {
            if s.as_str() == Some("Other") {
                PyStmt::Other
            } else if let Some(f) = s.get("Function") {
                PyStmt::Function(function(f))
            } else {
                let c = &s["Class"];
                PyStmt::Class(PyClass {
                    name: c["name"].as_str().unwrap().to_string(),
                    decorators: c["decorators"].as_array().unwrap().iter().map(expr).collect(),
                    body: c["body"]
                        .as_array()
                        .unwrap()
                        .iter()
                        .map(|m| match m.get("Method") {
                            Some(f) => ClassMember::Method(function(f)),
                            None => ClassMember::Other,
                        })
                        .collect(),
                })
            }
        })
        .collect();
    ModuleOutline { body }
}

#[test]
fn discovery_agrees_with_python_collection() {
    let found = discover_module(&outline());
    let expected: Value = serde_json::from_str(PY_DISCOVER).unwrap();
    let expected = expected.as_array().unwrap();
    assert_eq!(found.len(), expected.len());
    for (t, e) in found.iter().zip(expected.iter()) {
        assert_eq!(t.name, e["name"].as_str().unwrap());
        assert_eq!(t.marks, strings(&e["marks"]));
        let ours: BTreeSet<String> = t.extra_keywords.iter().cloned().collect();
        let theirs: BTreeSet<String> = strings(&e["extra_keywords"]).into_iter().collect();
        assert_eq!(ours, theirs);
        assert_eq!(ours.len(), t.extra_keywords.len());
    }
}

#[test]
fn fixtures_agree_with_python_collection() {
    let module = outline();
    let declared: Vec<String> = {
        let all = strings(&serde_json::from_str(PY_FIXTURES).unwrap());
        all[..all.len() - BUILTINS].to_vec()
    };
    let mut sorted = declared.clone();
    sorted.sort();
    assert_eq!(list_fixtures(&module, &config(1)), sorted);
    let shown: Vec<String> = sorted.into_iter().filter(|f| !f.starts_with('_')).collect();
    assert_eq!(list_fixtures(&module, &config(0)), shown);

    let expected: Value = serde_json::from_str(PY_FIXTURES_PER_TEST).unwrap();
    let expected = expected.as_array().unwrap();
    let verbose = list_fixtures_per_test(&module, &config(1));
    let quiet = list_fixtures_per_test(&module, &config(0));
    assert_eq!(verbose.len(), expected.len());
    for ((v, q), e) in verbose.iter().zip(quiet.iter()).zip(expected.iter()) {
        assert_eq!(v.test, e["name"].as_str().unwrap());
        assert_eq!(v.fixtures, strings(&e["fixtures"]));
        let visible: Vec<String> = strings(&e["fixtures"]).into_iter().filter(|f| !f.starts_with('_')).collect();
        assert_eq!(q.test, v.test);
        assert_eq!(q.fixtures, visible);
    }
}

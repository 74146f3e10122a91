use oxtest::outline::PyExpr;
use oxtest::{
    discover_module, list_fixtures, list_fixtures_per_test, order_by_full_name, CaptureMode,
    ClassMember, ModuleOutline, PyClass, PyFunction, PyStmt, RunConfig, TestItem,
};

fn make_config() -> RunConfig {
    RunConfig {
        k_expr: None,
        m_expr: None,
        exitfirst: false,
        maxfail: None,
        jobs: 1,
        ignore: Vec::new(),
        ignore_glob: Vec::new(),
        capture: CaptureMode::No,
        collect_only: false,
        quiet: false,
        verbose: 0,
        strict: false,
        strict_markers: false,
        strict_config: false,
    }
}

fn name(id: &str) -> PyExpr {
    PyExpr::Name(id.to_string())
}

fn attr(value: PyExpr, a: &str) -> PyExpr {
    PyExpr::Attribute(Box::new(value), a.to_string())
}

fn call(func: PyExpr, args: Vec<PyExpr>) -> PyExpr {
    PyExpr::Call(Box::new(func), args)
}

fn pytest_mark(m: &str) -> PyExpr {
    attr(attr(name("pytest"), "mark"), m)
}

fn function(n: &str, decorators: Vec<PyExpr>, params: &[&str]) -> PyFunction {
    PyFunction {
        name: n.to_string(),
        decorators,
        params: params.iter().map(|p| p.to_string()).collect(),
    }
}

fn items_of(file: &str, module: &ModuleOutline) -> Vec<TestItem> {
    discover_module(module)
        .into_iter()
        .map(|t| TestItem::from_discovered(file, t))
        .collect()
}

#[test]
fn discover_finds_functions_and_test_classes() {
    let module = ModuleOutline {
        body: vec![
            PyStmt::Other,
            PyStmt::Function(function("test_one", vec![pytest_mark("smoke")], &[])),
            PyStmt::Class(PyClass {
                name: "TestExample".to_string(),
                decorators: vec![],
                body: vec![ClassMember::Method(function("test_two", vec![], &["self"]))],
            }),
        ],
    };
    let items = order_by_full_name(items_of("test_example.py", &module));
    let names: Vec<String> = items.iter().map(|item| item.full_name.clone()).collect();
    assert_eq!(names, vec!["TestExample.test_two".to_string(), "test_one".to_string()]);
    assert!(items
        .iter()
        .any(|item| item.full_name == "test_one" && item.marks.contains(&"smoke".to_string())));
    let two = items.iter().find(|item| item.full_name == "TestExample.test_two").unwrap();
    assert_eq!(
        two.extra_keywords,
        vec!["test_two".to_string(), "TestExample".to_string(), "TestExample.test_two".to_string()]
    );
}

#[test]
fn discover_names_parametrized_tests_by_index() {
    let parametrize = call(
        attr(attr(name("pytest"), "mark"), "parametrize"),
        vec![PyExpr::Other, PyExpr::List(2)],
    );
    let module = ModuleOutline {
        body: vec![
            PyStmt::Function(function("test_values", vec![parametrize], &["x"])),
            PyStmt::Function(function("test_smoke", vec![pytest_mark("smoke")], &[])),
        ],
    };
    let items = items_of("test_params.py", &module);
    let names: Vec<String> = items.iter().map(|item| item.full_name.clone()).collect();
    assert_eq!(
        names,
        vec!["test_values[0]".to_string(), "test_values[1]".to_string(), "test_smoke".to_string()]
    );
    assert_eq!(items[0].marks, vec!["parametrize".to_string()]);
    assert_eq!(items[0].extra_keywords, vec!["test_values[0]".to_string(), "parametrize".to_string()]);
}

#[test]
fn discover_ignores_non_test_definitions() {
    let module = ModuleOutline {
        body: vec![
            PyStmt::Function(function("helper", vec![], &[])),
            PyStmt::Class(PyClass {
                name: "Helper".to_string(),
                decorators: vec![],
                body: vec![ClassMember::Method(function("test_inside", vec![], &["self"]))],
            }),
            PyStmt::Class(PyClass {
                name: "TestThing".to_string(),
                decorators: vec![attr(name("mark"), "slow")],
                body: vec![
                    ClassMember::Method(function("setup_method", vec![], &["self"])),
                    ClassMember::Other,
                    ClassMember::Method(function("test_a", vec![], &["self"])),
                ],
            }),
        ],
    };
    let found = discover_module(&module);
    assert_eq!(found.len(), 1);
    assert_eq!(found[0].name, "TestThing.test_a");
    assert_eq!(found[0].marks, vec!["slow".to_string()]);
}

#[test]
fn empty_parametrize_list_leaves_name_unchanged() {
    let parametrize = call(attr(name("pytest"), "parametrize"), vec![PyExpr::Other, PyExpr::List(0)]);
    let module = ModuleOutline {
        body: vec![PyStmt::Function(function("test_x", vec![parametrize], &[]))],
    };
    let found = discover_module(&module);
    assert_eq!(found.len(), 1);
    assert_eq!(found[0].name, "test_x");
}

#[test]
fn list_fixtures_reports_fixture_usage_for_test_functions() {
    let module = ModuleOutline {
        body: vec![
            PyStmt::Function(function("my_fixture", vec![attr(name("pytest"), "fixture")], &[])),
            PyStmt::Function(function("test_with_fixture", vec![], &["my_fixture"])),
        ],
    };
    let config = make_config();
    let fixtures = list_fixtures(&module, &config);
    assert_eq!(fixtures, vec!["my_fixture".to_string()]);

    let usage = list_fixtures_per_test(&module, &config);
    assert_eq!(usage.len(), 1);
    assert_eq!(usage[0].test, "test_with_fixture".to_string());
    assert_eq!(usage[0].fixtures, vec!["my_fixture".to_string()]);
}

#[test]
fn fixtures_hidden_unless_verbose_and_sorted() {
    let module = ModuleOutline {
        body: vec![
            PyStmt::Function(function("zeta", vec![call(name("fixture"), vec![])], &[])),
            PyStmt::Function(function("_private", vec![name("fixture")], &[])),
            PyStmt::Class(PyClass {
                name: "Holder".to_string(),
                decorators: vec![],
                body: vec![ClassMember::Method(function(
                    "alpha",
                    vec![attr(attr(name("cobratest"), "mark"), "fixture")],
                    &["self"],
                ))],
            }),
            PyStmt::Function(function("test_uses", vec![], &["_private", "tmp_path", "zeta", "other"])),
        ],
    };
    let mut config = make_config();
    assert_eq!(
        list_fixtures(&module, &config),
        vec!["Holder.alpha".to_string(), "alpha".to_string(), "zeta".to_string()]
    );
    let usage = list_fixtures_per_test(&module, &config);
    assert_eq!(usage[0].fixtures, vec!["tmp_path".to_string(), "zeta".to_string()]);
    config.verbose = 1;
    assert_eq!(
        list_fixtures(&module, &config),
        vec!["Holder.alpha".to_string(), "_private".to_string(), "alpha".to_string(), "zeta".to_string()]
    );
    let usage = list_fixtures_per_test(&module, &config);
    assert_eq!(
        usage[0].fixtures,
        vec!["_private".to_string(), "tmp_path".to_string(), "zeta".to_string()]
    );
}

//! Fixtures: which a module declares, which the runner provides, and which
//! each test asks for.
use vstd::prelude::*;
use crate::text::{append_strings, contains_string};
use crate::outline::{
    declares_fixture, is_fixture_decorator,
    is_test_class_name, is_test_function_name, ClassMember, ModuleOutline, PyExpr, PyFunction, PyStmt,
};
use crate::ordering::{lemma_sorted_unique, sort_strings, sorted_texts};
use crate::text::text_le;
use crate::types::{texts, FixtureUsage, RunConfig};

verus! {

/// One of the decorators declares a fixture.
pub open spec fn decorated_as_fixture(decorators: Seq<PyExpr>) -> bool {
    exists|i: int| 0 <= i < decorators.len() && is_fixture_decorator(#[trigger] decorators[i])
}

/// The fixtures that the first members of a class declare: each as
/// `Class.method` and as `method`.
pub open spec fn member_fixtures(members: Seq<ClassMember>, class_name: Seq<char>) -> Seq<Seq<char>>
    decreases members.len(),
{
    if members.len() == 0 {
        seq![]
    } else {
        member_fixtures(members.drop_last(), class_name) + match members.last() {
            ClassMember::Method(f) => if decorated_as_fixture(f.decorators@) {
                seq![class_name + "."@ + f.name@, f.name@]
            } else {
                seq![]
            },
            ClassMember::Other => seq![],
        }
    }
}

/// The fixtures that one top-level statement declares (classes of any name).
pub open spec fn stmt_fixtures(s: PyStmt) -> Seq<Seq<char>> {
    match s {
        PyStmt::Function(f) => if decorated_as_fixture(f.decorators@) {
            seq![f.name@]
        } else {
            seq![]
        },
        PyStmt::Class(c) => member_fixtures(c.body@, c.name@),
        PyStmt::Other => seq![],
    }
}

/// The fixtures a module declares, in source order.
pub open spec fn module_fixtures(stmts: Seq<PyStmt>) -> Seq<Seq<char>>
    decreases stmts.len(),
{
    if stmts.len() == 0 {
        seq![]
    } else {
        module_fixtures(stmts.drop_last()) + stmt_fixtures(stmts.last())
    }
}

/// The fixtures the runner provides itself, in ascending order.
pub open spec fn builtin_fixtures() -> Seq<Seq<char>> {
    seq![
        "capfd"@, "capfdbinary"@, "caplog"@, "capsys"@, "capsysbinary"@, "capteesys"@,
        "cobratestconfig"@, "cobratester"@, "doctest_namespace"@, "monkeypatch"@,
        "record_property"@, "record_testsuite_property"@, "recwarn"@, "request"@, "subtests"@,
        "testdir"@, "tmp_path"@, "tmp_path_factory"@, "tmpdir"@, "tmpdir_factory"@,
    ]
}

/// The fixtures available to the tests of a module.
pub open spec fn available_fixtures(stmts: Seq<PyStmt>) -> Seq<Seq<char>> {
    module_fixtures(stmts) + builtin_fixtures()
}

/// A fixture name is shown: in verbose mode all are, otherwise those not
/// beginning with `_`.
pub open spec fn is_shown(name: Seq<char>, verbose: u8) -> bool {
    verbose > 0 || !(name.len() > 0 && name[0] == '_')
}

/// The shown names among `names`, in order.
pub open spec fn shown(names: Seq<Seq<char>>, verbose: u8) -> Seq<Seq<char>>
    decreases names.len(),
{
    if names.len() == 0 {
        seq![]
    } else {
        shown(names.drop_last(), verbose) + if is_shown(names.last(), verbose) {
            seq![names.last()]
        } else {
            seq![]
        }
    }
}

/// The parameters of a test that name known fixtures and are shown.
pub open spec fn requested(params: Seq<Seq<char>>, known: Set<Seq<char>>, verbose: u8) -> Seq<Seq<char>>
    decreases params.len(),
{
    if params.len() == 0 {
        seq![]
    } else {
        requested(params.drop_last(), known, verbose) + if known.contains(params.last()) && is_shown(
            params.last(),
            verbose,
        ) {
            seq![params.last()]
        } else {
            seq![]
        }
    }
}

/// A test's name and the fixtures it requests, as texts.
pub type UsageEntry = (Seq<char>, Seq<Seq<char>>);

/// The fixture usage of the test methods among the first members of a test class.
pub open spec fn member_usage(
    members: Seq<ClassMember>,
    class_name: Seq<char>,
    known: Set<Seq<char>>,
    verbose: u8,
) -> Seq<UsageEntry>
    decreases members.len(),
{
    if members.len() == 0 {
        seq![]
    } else {
        member_usage(members.drop_last(), class_name, known, verbose) + match members.last() {
            ClassMember::Method(f) => if is_test_function_name(f.name@) {
                seq![(class_name + "."@ + f.name@, requested(texts(f.params@), known, verbose))]
            } else {
                seq![]
            },
            ClassMember::Other => seq![],
        }
    }
}

/// The fixture usage of the tests in one top-level statement.
pub open spec fn stmt_usage(s: PyStmt, known: Set<Seq<char>>, verbose: u8) -> Seq<UsageEntry> {
    match s {
        PyStmt::Function(f) => if is_test_function_name(f.name@) {
            seq![(f.name@, requested(texts(f.params@), known, verbose))]
        } else {
            seq![]
        },
        PyStmt::Class(c) => if is_test_class_name(c.name@) {
            member_usage(c.body@, c.name@, known, verbose)
        } else {
            seq![]
        },
        PyStmt::Other => seq![],
    }
}

/// The fixture usage of the tests of a module, in source order.
pub open spec fn module_usage(stmts: Seq<PyStmt>, known: Set<Seq<char>>, verbose: u8) -> Seq<UsageEntry>
    decreases stmts.len(),
{
    if stmts.len() == 0 {
        seq![]
    } else {
        module_usage(stmts.drop_last(), known, verbose) + stmt_usage(stmts.last(), known, verbose)
    }
}

impl FixtureUsage {
    pub open spec fn entry(self) -> UsageEntry {
        (self.test@, texts(self.fixtures@))
    }
}

/// The entries of a list of fixture usages.
pub open spec fn usage_entries(v: Seq<FixtureUsage>) -> Seq<UsageEntry> {
    v.map_values(|u: FixtureUsage| u.entry())
}

// ---------------------------------------------------------------------------

/// Whether one of the decorators declares a fixture.
fn fixture_decorated(decorators: &Vec<PyExpr>) -> (r: bool)
    ensures
        r == decorated_as_fixture(decorators@),
{
    let mut i: usize = 0;
    while i < decorators.len()
        invariant
            i <= decorators.len(),
            forall|j: int| 0 <= j < i ==> !is_fixture_decorator(#[trigger] decorators@[j]),
        decreases decorators.len() - i,
    {
        if declares_fixture(&decorators[i]) {
            return true;
        }
        i += 1;
    }
    false
}

/// The fixtures a module declares, in source order.
pub fn declared_fixtures(module: &ModuleOutline) -> (r: Vec<String>)
    ensures
        texts(r@) == module_fixtures(module.body@),
{
    let mut out: Vec<String> = Vec::new();
    let mut i: usize = 0;
    assert(texts(out@) =~= module_fixtures(module.body@.take(0)));
    while i < module.body.len()
        invariant
            i <= module.body.len(),
            texts(out@) == module_fixtures(module.body@.take(i as int)),
        decreases module.body.len() - i,
    {
        let ghost before = texts(out@);
        proof {
            assert(module.body@.take(i + 1).drop_last() =~= module.body@.take(i as int));
            assert(module.body@.take(i + 1).last() == module.body@[i as int]);
        }
        match &module.body[i] {
            PyStmt::Function(f) => {
                if fixture_decorated(&f.decorators) {
                    out.push(f.name.clone());
                    assert(texts(out@) =~= before + seq![f.name@]);
                } else {
                    assert(texts(out@) =~= before + Seq::<Seq<char>>::empty());
                }
            },
            PyStmt::Class(c) => {
                let ghost start = texts(out@);
                let mut j: usize = 0;
                assert(member_fixtures(c.body@.take(0), c.name@) =~= Seq::<Seq<char>>::empty());
                assert(texts(out@) =~= start + member_fixtures(c.body@.take(0), c.name@));
                while j < c.body.len()
                    invariant
                        j <= c.body.len(),
                        texts(out@) == start + member_fixtures(c.body@.take(j as int), c.name@),
                    decreases c.body.len() - j,
                {
                    let ghost prev = texts(out@);
                    proof {
                        assert(c.body@.take(j + 1).drop_last() =~= c.body@.take(j as int));
                        assert(c.body@.take(j + 1).last() == c.body@[j as int]);
                    }
                    match &c.body[j] {
                        ClassMember::Method(f) => {
                            if fixture_decorated(&f.decorators) {
                                let dotted = crate::text::concat(c.name.as_str(), ".");
                                let qualified = crate::text::concat(dotted.as_str(), f.name.as_str());
                                out.push(qualified);
                                out.push(f.name.clone());
                                assert(texts(out@) =~= prev + seq![c.name@ + "."@ + f.name@, f.name@]);
                            } else {
                                assert(texts(out@) =~= prev + Seq::<Seq<char>>::empty());
                            }
                        },
                        ClassMember::Other => {
                            assert(texts(out@) =~= prev + Seq::<Seq<char>>::empty());
                        },
                    }
                    j += 1;
                }
                assert(c.body@.take(c.body.len() as int) =~= c.body@);
            },
            PyStmt::Other => {
                assert(texts(out@) =~= before + Seq::<Seq<char>>::empty());
            },
        }
        i += 1;
    }
    assert(module.body@.take(module.body.len() as int) =~= module.body@);
    out
}

/// The fixtures the runner provides itself, in ascending order.
pub fn builtin_fixture_names() -> (r: Vec<String>)
    ensures
        texts(r@) == builtin_fixtures(),
{
    let mut v: Vec<String> = Vec::new();
    v.push("capfd".to_owned());
    v.push("capfdbinary".to_owned());
    v.push("caplog".to_owned());
    v.push("capsys".to_owned());
    v.push("capsysbinary".to_owned());
    v.push("capteesys".to_owned());
    v.push("cobratestconfig".to_owned());
    v.push("cobratester".to_owned());
    v.push("doctest_namespace".to_owned());
    v.push("monkeypatch".to_owned());
    v.push("record_property".to_owned());
    v.push("record_testsuite_property".to_owned());
    v.push("recwarn".to_owned());
    v.push("request".to_owned());
    v.push("subtests".to_owned());
    v.push("testdir".to_owned());
    v.push("tmp_path".to_owned());
    v.push("tmp_path_factory".to_owned());
    v.push("tmpdir".to_owned());
    v.push("tmpdir_factory".to_owned());
    assert(texts(v@) =~= builtin_fixtures());
    v
}

/// Whether the fixture name is shown at the given verbosity.
pub fn fixture_shown(name: &String, verbose: u8) -> (r: bool)
    ensures
        r == is_shown(name@, verbose),
{
    if verbose > 0 {
        return true;
    }
    let cs = crate::text::chars_of(name.as_str());
    !(cs.len() > 0 && cs[0] == '_')
}

/// The shown names among `names`, in order.
fn shown_names(names: &Vec<String>, verbose: u8) -> (r: Vec<String>)
    ensures
        texts(r@) == shown(texts(names@), verbose),
{
    let mut out: Vec<String> = Vec::new();
    let mut i: usize = 0;
    assert(texts(names@).take(0) =~= Seq::<Seq<char>>::empty());
    while i < names.len()
        invariant
            i <= names.len(),
            texts(out@) == shown(texts(names@).take(i as int), verbose),
        decreases names.len() - i,
    {
        let ghost prev = texts(out@);
        proof {
            assert(texts(names@).take(i + 1).drop_last() =~= texts(names@).take(i as int));
            assert(texts(names@).take(i + 1).last() == names@[i as int]@);
        }
        if fixture_shown(&names[i], verbose) {
            out.push(names[i].clone());
            assert(texts(out@) =~= prev + seq![names@[i as int]@]);
        } else {
            assert(texts(out@) =~= prev + Seq::<Seq<char>>::empty());
        }
        i += 1;
    }
    assert(texts(names@).take(names.len() as int) =~= texts(names@));
    out
}

/// The fixtures a module declares that are shown at the configured verbosity,
/// in ascending order.
pub fn list_fixtures(module: &ModuleOutline, config: &RunConfig) -> (r: Vec<String>)
    ensures
        sorted_texts(texts(r@)),
        texts(r@).to_multiset() =~= shown(module_fixtures(module.body@), config.verbose).to_multiset(),
{
    let declared = declared_fixtures(module);
    let visible = shown_names(&declared, config.verbose);
    sort_strings(visible)
}

/// The parameters that name known fixtures and are shown, in order.
fn requested_fixtures(params: &Vec<String>, known: &Vec<String>, verbose: u8) -> (r: Vec<String>)
    ensures
        texts(r@) == requested(texts(params@), texts(known@).to_set(), verbose),
{
    let ghost ks = texts(known@).to_set();
    let mut out: Vec<String> = Vec::new();
    let mut i: usize = 0;
    assert(texts(params@).take(0) =~= Seq::<Seq<char>>::empty());
    while i < params.len()
        invariant
            i <= params.len(),
            ks == texts(known@).to_set(),
            texts(out@) == requested(texts(params@).take(i as int), ks, verbose),
        decreases params.len() - i,
    {
        let ghost prev = texts(out@);
        proof {
            assert(texts(params@).take(i + 1).drop_last() =~= texts(params@).take(i as int));
            assert(texts(params@).take(i + 1).last() == params@[i as int]@);
        }
        let known_here = contains_string(known, &params[i]);
        proof {
            assert(known_here == ks.contains(params@[i as int]@)) by {
                if ks.contains(params@[i as int]@) {
                    assert(texts(known@).contains(params@[i as int]@));
                }
            }
        }
        if known_here && fixture_shown(&params[i], verbose) {
            out.push(params[i].clone());
            assert(texts(out@) =~= prev + seq![params@[i as int]@]);
        } else {
            assert(texts(out@) =~= prev + Seq::<Seq<char>>::empty());
        }
        i += 1;
    }
    assert(texts(params@).take(params.len() as int) =~= texts(params@));
    out
}

/// For each test of a module, in source order, the fixtures among its
/// parameters that the module declares or the runner provides and that are
/// shown at the configured verbosity.  Parametrized tests appear once, under
/// the name of their function.
pub fn list_fixtures_per_test(module: &ModuleOutline, config: &RunConfig) -> (r: Vec<FixtureUsage>)
    ensures
        usage_entries(r@) == module_usage(
            module.body@,
            available_fixtures(module.body@).to_set(),
            config.verbose,
        ),
{
    let mut known = declared_fixtures(module);
    let builtins = builtin_fixture_names();
    append_strings(&mut known, &builtins);
    let ghost ks = texts(known@).to_set();
    assert(ks == available_fixtures(module.body@).to_set());
    let verbose: u8 = config.verbose;
    let mut out: Vec<FixtureUsage> = Vec::new();
    let mut i: usize = 0;
    assert(usage_entries(out@) =~= module_usage(module.body@.take(0), ks, verbose));
    while i < module.body.len()
        invariant
            i <= module.body.len(),
            ks == texts(known@).to_set(),
            usage_entries(out@) == module_usage(module.body@.take(i as int), ks, verbose),
        decreases module.body.len() - i,
    {
        let ghost before = usage_entries(out@);
        proof {
            assert(module.body@.take(i + 1).drop_last() =~= module.body@.take(i as int));
            assert(module.body@.take(i + 1).last() == module.body@[i as int]);
        }
        match &module.body[i] {
            PyStmt::Function(f) => {
                if crate::text::starts_with_text(f.name.as_str(), "test_") {
                    let fixtures = requested_fixtures(&f.params, &known, verbose);
                    out.push(FixtureUsage { test: f.name.clone(), fixtures });
                    assert(usage_entries(out@) =~= before + seq![(f.name@, requested(texts(f.params@), ks, verbose))]);
                } else {
                    assert(usage_entries(out@) =~= before + Seq::<UsageEntry>::empty());
                }
            },
            PyStmt::Class(c) => {
                if crate::text::starts_with_text(c.name.as_str(), "Test") {
                    let ghost start = usage_entries(out@);
                    let mut j: usize = 0;
                    assert(member_usage(c.body@.take(0), c.name@, ks, verbose) =~= Seq::<UsageEntry>::empty());
                    assert(usage_entries(out@) =~= start + member_usage(c.body@.take(0), c.name@, ks, verbose));
                    while j < c.body.len()
                        invariant
                            j <= c.body.len(),
                            ks == texts(known@).to_set(),
                            usage_entries(out@) == start + member_usage(c.body@.take(j as int), c.name@, ks, verbose),
                        decreases c.body.len() - j,
                    {
                        let ghost prev = usage_entries(out@);
                        proof {
                            assert(c.body@.take(j + 1).drop_last() =~= c.body@.take(j as int));
                            assert(c.body@.take(j + 1).last() == c.body@[j as int]);
                        }
                        match &c.body[j] {
                            ClassMember::Method(f) => {
                                if crate::text::starts_with_text(f.name.as_str(), "test_") {
                                    let dotted = crate::text::concat(c.name.as_str(), ".");
                                    let test = crate::text::concat(dotted.as_str(), f.name.as_str());
                                    let fixtures = requested_fixtures(&f.params, &known, verbose);
                                    out.push(FixtureUsage { test, fixtures });
                                    assert(usage_entries(out@) =~= prev + seq![(c.name@ + "."@ + f.name@, requested(texts(f.params@), ks, verbose))]);
                                } else {
                                    assert(usage_entries(out@) =~= prev + Seq::<UsageEntry>::empty());
                                }
                            },
                            ClassMember::Other => {
                                assert(usage_entries(out@) =~= prev + Seq::<UsageEntry>::empty());
                            },
                        }
                        j += 1;
                    }
                    assert(c.body@.take(c.body.len() as int) =~= c.body@);
                } else {
                    assert(usage_entries(out@) =~= before + Seq::<UsageEntry>::empty());
                }
            },
            PyStmt::Other => {
                assert(usage_entries(out@) =~= before + Seq::<UsageEntry>::empty());
            },
        }
        i += 1;
    }
    assert(module.body@.take(module.body.len() as int) =~= module.body@);
    out
}

// ---------------------------------------------------------------------------
// Laws of fixture listing.

/// The shown names are names given, and shown.
pub proof fn lemma_shown_are_shown(names: Seq<Seq<char>>, verbose: u8)
    ensures
        forall|k: int| 0 <= k < shown(names, verbose).len() ==> is_shown(#[trigger] shown(names, verbose)[k], verbose)
            && names.contains(shown(names, verbose)[k]),
    decreases names.len(),
{
    if names.len() > 0 {
        lemma_shown_are_shown(names.drop_last(), verbose);
        let a = shown(names.drop_last(), verbose);
        assert forall|k: int| 0 <= k < shown(names, verbose).len() implies is_shown(#[trigger] shown(names, verbose)[k], verbose)
            && names.contains(shown(names, verbose)[k]) by {
            if k < a.len() {
                assert(shown(names, verbose)[k] == a[k]);
                let j = choose|j: int| 0 <= j < names.drop_last().len() && names.drop_last()[j] == a[k];
                assert(names[j] == a[k]);
            } else {
                assert(shown(names, verbose)[k] == names.last());
                assert(names[names.len() - 1] == names.last());
            }
        }
    }
}

/// The fixtures of statements written one list after another are those of
/// the first list, then those of the second: fixtures keep source order.
pub proof fn lemma_module_fixtures_concat(a: Seq<PyStmt>, b: Seq<PyStmt>)
    ensures
        module_fixtures(a + b) == module_fixtures(a) + module_fixtures(b),
    decreases b.len(),
{
    if b.len() == 0 {
        assert(a + b =~= a);
        assert(module_fixtures(a) + module_fixtures(b) =~= module_fixtures(a));
    } else {
        lemma_module_fixtures_concat(a, b.drop_last());
        assert((a + b).drop_last() =~= a + b.drop_last());
        assert((a + b).last() == b.last());
        assert(module_fixtures(a + b) =~= module_fixtures(a) + module_fixtures(b));
    }
}

/// A top-level function with a fixture decorator, anywhere among its
/// decorators, is a declared fixture of the module, and is listed without
/// `-v` unless its name begins with `_`.
pub proof fn lemma_fixture_function_declared(stmts: Seq<PyStmt>, i: int, f: PyFunction, k: int)
    requires
        0 <= i < stmts.len(),
        stmts[i] == PyStmt::Function(f),
        0 <= k < f.decorators@.len(),
        is_fixture_decorator(f.decorators@[k]),
    ensures
        module_fixtures(stmts).contains(f.name@),
        is_shown(f.name@, 0) ==> shown(module_fixtures(stmts), 0).contains(f.name@),
{
    let a = stmts.take(i);
    let b = stmts.skip(i);
    assert(stmts =~= a + b);
    lemma_module_fixtures_concat(a, b);
    let one = seq![stmts[i]];
    let rest = b.skip(1);
    assert(b =~= one + rest);
    lemma_module_fixtures_concat(one, rest);
    assert(one.drop_last() =~= Seq::<PyStmt>::empty());
    assert(decorated_as_fixture(f.decorators@));
    assert(one.last() == PyStmt::Function(f));
    assert(stmt_fixtures(one.last()) == seq![f.name@]);
    assert(module_fixtures(one.drop_last()) =~= Seq::<Seq<char>>::empty());
    assert(module_fixtures(one) =~= seq![f.name@]);
    let mf = module_fixtures(stmts);
    let pos = module_fixtures(a).len() as int;
    assert(mf[pos] == f.name@);
    if is_shown(f.name@, 0) {
        lemma_shown_complete(mf, 0, pos);
    }
}

/// Every shown name among `names` is kept by `shown`.
proof fn lemma_shown_complete(names: Seq<Seq<char>>, verbose: u8, k: int)
    requires
        0 <= k < names.len(),
        is_shown(names[k], verbose),
    ensures
        shown(names, verbose).contains(names[k]),
    decreases names.len(),
{
    let p = names.drop_last();
    if k < names.len() - 1 {
        assert(p[k] == names[k]);
        lemma_shown_complete(p, verbose, k);
        let m = choose|m: int| 0 <= m < shown(p, verbose).len() && shown(p, verbose)[m] == names[k];
        assert(shown(names, verbose)[m] == names[k]);
    } else {
        assert(shown(names, verbose)[shown(p, verbose).len() as int] == names[k]);
    }
}

/// Every parameter of a test that names a known fixture, and is shown, is
/// among the fixtures listed for it.
pub proof fn lemma_requested_complete(params: Seq<Seq<char>>, known: Set<Seq<char>>, verbose: u8, k: int)
    requires
        0 <= k < params.len(),
        known.contains(params[k]),
        is_shown(params[k], verbose),
    ensures
        requested(params, known, verbose).contains(params[k]),
    decreases params.len(),
{
    let p = params.drop_last();
    if k < params.len() - 1 {
        assert(p[k] == params[k]);
        lemma_requested_complete(p, known, verbose, k);
        let m = choose|m: int| 0 <= m < requested(p, known, verbose).len() && requested(p, known, verbose)[m] == params[k];
        assert(requested(params, known, verbose)[m] == params[k]);
    } else {
        assert(requested(params, known, verbose)[requested(p, known, verbose).len() as int] == params[k]);
    }
}

/// With `-v`, every name is shown.
proof fn lemma_verbose_shows_all(names: Seq<Seq<char>>, verbose: u8)
    requires
        verbose > 0,
    ensures
        shown(names, verbose) == names,
    decreases names.len(),
{
    if names.len() > 0 {
        lemma_verbose_shows_all(names.drop_last(), verbose);
        assert(names.drop_last() + seq![names.last()] =~= names);
    }
}

/// A name is shown as often as it is given, if it is shown at all.
proof fn lemma_shown_count(names: Seq<Seq<char>>, verbose: u8, x: Seq<char>)
    ensures
        shown(names, verbose).to_multiset().count(x) == if is_shown(x, verbose) {
            names.to_multiset().count(x)
        } else {
            0
        },
    decreases names.len(),
{
    broadcast use vstd::seq_lib::group_to_multiset_ensures;

    if names.len() == 0 {
        assert(shown(names, verbose) =~= Seq::<Seq<char>>::empty());
        assert(names =~= Seq::<Seq<char>>::empty());
    } else {
        let p = names.drop_last();
        let l = names.last();
        lemma_shown_count(p, verbose, x);
        assert(names =~= p.push(l));
        if is_shown(l, verbose) {
            assert(shown(names, verbose) =~= shown(p, verbose).push(l));
        } else {
            assert(shown(names, verbose) =~= shown(p, verbose));
        }
    }
}

/// Keeping the shown names of a sequence in text order keeps it in order.
proof fn lemma_shown_sorted(names: Seq<Seq<char>>, verbose: u8)
    requires
        sorted_texts(names),
    ensures
        sorted_texts(shown(names, verbose)),
    decreases names.len(),
{
    if names.len() > 0 {
        let p = names.drop_last();
        let l = names.last();
        assert(sorted_texts(p));
        lemma_shown_sorted(p, verbose);
        lemma_shown_are_shown(p, verbose);
        let a = shown(p, verbose);
        if is_shown(l, verbose) {
            let s2 = shown(names, verbose);
            assert(s2 =~= a.push(l));
            assert forall|i: int, j: int| 0 <= i < j < s2.len() implies text_le(#[trigger] s2[i], #[trigger] s2[j]) by {
                if j < a.len() {
                    assert(s2[i] == a[i] && s2[j] == a[j]);
                } else {
                    assert(s2[i] == a[i]);
                    assert(p.contains(a[i]));
                    let k = choose|k: int| 0 <= k < p.len() && p[k] == a[i];
                    assert(names[k] == a[i]);
                    assert(names[names.len() - 1] == l);
                    assert(text_le(names[k], names[names.len() - 1]));
                }
            }
        } else {
            assert(shown(names, verbose) =~= a);
        }
    }
}

/// Listing fixtures without `-v` gives the listing with `-v` less the names
/// that begin with `_`: `quiet` and `loud` are what `list_fixtures` promises
/// for the same module at verbosity 0 and at some verbosity above 0.
pub proof fn lemma_quiet_listing_hides_private(
    module: ModuleOutline,
    quiet: Seq<Seq<char>>,
    loud: Seq<Seq<char>>,
    verbose: u8,
)
    requires
        verbose > 0,
        sorted_texts(quiet),
        quiet.to_multiset() =~= shown(module_fixtures(module.body@), 0).to_multiset(),
        sorted_texts(loud),
        loud.to_multiset() =~= shown(module_fixtures(module.body@), verbose).to_multiset(),
    ensures
        quiet == shown(loud, 0),
{
    let names = module_fixtures(module.body@);
    lemma_verbose_shows_all(names, verbose);
    lemma_shown_sorted(loud, 0);
    assert forall|x: Seq<char>| #[trigger] quiet.to_multiset().count(x) == shown(loud, 0).to_multiset().count(x) by {
        lemma_shown_count(names, 0, x);
        lemma_shown_count(loud, 0, x);
    }
    assert(quiet.to_multiset() =~= shown(loud, 0).to_multiset());
    lemma_sorted_unique(quiet, shown(loud, 0));
}

/// The fixtures requested by a test are among its parameters, known, and shown.
pub proof fn lemma_requested_are_known(params: Seq<Seq<char>>, known: Set<Seq<char>>, verbose: u8)
    ensures
        forall|k: int| 0 <= k < requested(params, known, verbose).len() ==> {
            let x = #[trigger] requested(params, known, verbose)[k];
            params.contains(x) && known.contains(x) && is_shown(x, verbose)
        },
    decreases params.len(),
{
    if params.len() > 0 {
        lemma_requested_are_known(params.drop_last(), known, verbose);
        let a = requested(params.drop_last(), known, verbose);
        assert forall|k: int| 0 <= k < requested(params, known, verbose).len() implies {
            let x = #[trigger] requested(params, known, verbose)[k];
            params.contains(x) && known.contains(x) && is_shown(x, verbose)
        } by {
            if k < a.len() {
                assert(requested(params, known, verbose)[k] == a[k]);
                let j = choose|j: int| 0 <= j < params.drop_last().len() && params.drop_last()[j] == a[k];
                assert(params[j] == a[k]);
            } else {
                assert(requested(params, known, verbose)[k] == params.last());
                assert(params[params.len() - 1] == params.last());
            }
        }
    }
}

proof fn lemma_member_usage_known(members: Seq<ClassMember>, class_name: Seq<char>, known: Set<Seq<char>>, verbose: u8)
    ensures
        forall|i: int, k: int|
            0 <= i < member_usage(members, class_name, known, verbose).len() && 0 <= k
                < member_usage(members, class_name, known, verbose)[i].1.len() ==> {
                let x = #[trigger] member_usage(members, class_name, known, verbose)[i].1[k];
                known.contains(x) && is_shown(x, verbose)
            },
    decreases members.len(),
{
    if members.len() > 0 {
        lemma_member_usage_known(members.drop_last(), class_name, known, verbose);
        let a = member_usage(members.drop_last(), class_name, known, verbose);
        match members.last() {
            ClassMember::Method(f) => {
                lemma_requested_are_known(texts(f.params@), known, verbose);
            },
            ClassMember::Other => {},
        }
        let all = member_usage(members, class_name, known, verbose);
        assert forall|i: int, k: int| 0 <= i < all.len() && 0 <= k < all[i].1.len() implies {
            let x = #[trigger] all[i].1[k];
            known.contains(x) && is_shown(x, verbose)
        } by {
            if i < a.len() {
                assert(all[i] == a[i]);
            }
        }
    }
}

/// Every fixture that the per-test listing reports for a test is a fixture the
/// module declares or the runner provides, and is shown at the verbosity.
pub proof fn lemma_usage_lists_known_fixtures(stmts: Seq<PyStmt>, verbose: u8)
    ensures
        forall|i: int, k: int|
            0 <= i < module_usage(stmts, available_fixtures(stmts).to_set(), verbose).len() && 0 <= k
                < module_usage(stmts, available_fixtures(stmts).to_set(), verbose)[i].1.len() ==> {
                let x = #[trigger] module_usage(stmts, available_fixtures(stmts).to_set(), verbose)[i].1[k];
                available_fixtures(stmts).contains(x) && is_shown(x, verbose)
            },
{
    let known = available_fixtures(stmts).to_set();
    lemma_module_usage_known(stmts, known, verbose);
}

proof fn lemma_module_usage_known(stmts: Seq<PyStmt>, known: Set<Seq<char>>, verbose: u8)
    ensures
        forall|i: int, k: int|
            0 <= i < module_usage(stmts, known, verbose).len() && 0 <= k < module_usage(stmts, known, verbose)[i].1.len()
                ==> {
                let x = #[trigger] module_usage(stmts, known, verbose)[i].1[k];
                known.contains(x) && is_shown(x, verbose)
            },
    decreases stmts.len(),
{
    if stmts.len() > 0 {
        lemma_module_usage_known(stmts.drop_last(), known, verbose);
        let a = module_usage(stmts.drop_last(), known, verbose);
        match stmts.last() {
            PyStmt::Function(f) => {
                lemma_requested_are_known(texts(f.params@), known, verbose);
            },
            PyStmt::Class(c) => {
                lemma_member_usage_known(c.body@, c.name@, known, verbose);
            },
            PyStmt::Other => {},
        }
        let all = module_usage(stmts, known, verbose);
        assert forall|i: int, k: int| 0 <= i < all.len() && 0 <= k < all[i].1.len() implies {
            let x = #[trigger] all[i].1[k];
            known.contains(x) && is_shown(x, verbose)
        } by {
            if i < a.len() {
                assert(all[i] == a[i]);
            } else {
                assert(all[i] == stmt_usage(stmts.last(), known, verbose)[i - a.len()]);
            }
        }
    }
}

} // verus!

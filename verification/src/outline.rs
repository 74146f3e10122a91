//! The top-level shape of a Python test module, as far as collection reads it,
//! and the rules that turn it into tests: which functions and classes hold
//! tests, how parametrized tests are named, which decorators are marks, and
//! which keywords a test answers to.
use vstd::prelude::*;
use crate::text::{
    append_strings, chars_of, copy_strings, decimal_digits, dedup, lemma_dedup, push_unique, same_text,
    starts_with_seq,
};
use crate::types::texts;

verus! {

/// A decorator expression, reduced to the forms collection distinguishes.
#[derive(Debug)]
pub enum PyExpr {
    /// A bare name, `fixture`.
    Name(String),
    /// An attribute access, `value.attr`.
    Attribute(Box<PyExpr>, String),
    /// A call, `func(args...)`, with its positional arguments.
    Call(Box<PyExpr>, Vec<PyExpr>),
    /// A list display, with its number of elements.
    List(usize),
    /// Any other expression.
    Other,
}

/// A function definition (`def`): its name, decorators and positional parameters.
#[derive(Debug)]
pub struct PyFunction {
    pub name: String,
    pub decorators: Vec<PyExpr>,
    pub params: Vec<String>,
}

/// A statement in a class body.
#[derive(Debug)]
pub enum ClassMember {
    Method(PyFunction),
    Other,
}

/// A class definition: its name, decorators and body.
#[derive(Debug)]
pub struct PyClass {
    pub name: String,
    pub decorators: Vec<PyExpr>,
    pub body: Vec<ClassMember>,
}

/// A top-level statement of a module.
#[derive(Debug)]
pub enum PyStmt {
    Function(PyFunction),
    Class(PyClass),
    Other,
}

/// The top-level statements of a module, in source order.
#[derive(Debug)]
pub struct ModuleOutline {
    pub body: Vec<PyStmt>,
}

/// A test found in a module: its (possibly class-qualified, possibly
/// parametrized) name, its marks and the keywords it answers to.
#[derive(Clone, Debug)]
pub struct DiscoveredTest {
    pub name: String,
    pub marks: Vec<String>,
    pub extra_keywords: Vec<String>,
}

/// A test as texts: name, marks, keywords.
pub type TestEntry = (Seq<char>, Seq<Seq<char>>, Seq<Seq<char>>);

impl DiscoveredTest {
    pub open spec fn entry(self) -> TestEntry {
        (self.name@, texts(self.marks@), texts(self.extra_keywords@))
    }
}

/// The module names under which the runner's API is imported.
pub open spec fn is_runner_module(id: Seq<char>) -> bool {
    id == "pytest"@ || id == "cobratest"@
}

/// The mark that a decorator applies: `@mark.NAME`, `@pytest.mark.NAME` or
/// `@cobratest.mark.NAME`, called or not.
pub open spec fn mark_name(e: PyExpr) -> Option<Seq<char>>
    decreases e,
{
    match e {
        PyExpr::Call(f, _) => mark_name(*f),
        PyExpr::Attribute(v, attr) => match *v {
            PyExpr::Name(id) => if id@ == "mark"@ {
                Some(attr@)
            } else {
                None
            },
            PyExpr::Attribute(vv, inner) => if inner@ == "mark"@ && (match *vv {
                PyExpr::Name(id) => is_runner_module(id@),
                _ => false,
            }) {
                Some(attr@)
            } else {
                None
            },
            _ => None,
        },
        _ => None,
    }
}

/// The decorator declares a fixture: `@fixture`, or `.fixture` on `pytest`,
/// `mark`, `cobratest`, `pytest.mark` or `cobratest.mark`, called or not.
pub open spec fn is_fixture_decorator(e: PyExpr) -> bool
    decreases e,
{
    match e {
        PyExpr::Call(f, _) => is_fixture_decorator(*f),
        PyExpr::Attribute(v, attr) => attr@ == "fixture"@ && match *v {
            PyExpr::Name(id) => is_runner_module(id@) || id@ == "mark"@,
            PyExpr::Attribute(vv, inner) => inner@ == "mark"@ && match *vv {
                PyExpr::Name(id) => is_runner_module(id@),
                _ => false,
            },
            _ => false,
        },
        PyExpr::Name(id) => id@ == "fixture"@,
        PyExpr::Other => false,
        PyExpr::List(_) => false,
    }
}

/// The number of parameter sets of a `.parametrize(names, [v0, v1, ...], ...)`
/// decorator whose second argument is a list display.
pub open spec fn parametrize_count(e: PyExpr) -> Option<nat> {
    match e {
        PyExpr::Call(f, args) => if (match *f {
            PyExpr::Attribute(_, attr) => attr@ == "parametrize"@,
            _ => false,
        }) && args.len() >= 2 {
            match args@[1] {
                PyExpr::List(n) => Some(n as nat),
                _ => None,
            }
        } else {
            None
        },
        _ => None,
    }
}

/// The parameter-set count of the first decorator that parametrizes over a
/// non-empty list.
pub open spec fn first_param_count(decorators: Seq<PyExpr>) -> Option<nat>
    decreases decorators.len(),
{
    if decorators.len() == 0 {
        None
    } else {
        match parametrize_count(decorators[0]) {
            Some(n) => if n > 0 {
                Some(n)
            } else {
                first_param_count(decorators.drop_first())
            },
            None => first_param_count(decorators.drop_first()),
        }
    }
}

/// The marks that a list of decorators applies, in order.
pub open spec fn collect_marks(decorators: Seq<PyExpr>) -> Seq<Seq<char>>
    decreases decorators.len(),
{
    if decorators.len() == 0 {
        seq![]
    } else {
        collect_marks(decorators.drop_last()) + match mark_name(decorators.last()) {
            Some(m) => if m.len() > 0 {
                seq![m]
            } else {
                seq![]
            },
            None => seq![],
        }
    }
}

/// The id that the `i`-th parameter set appends to a test name: `[i]`.
pub open spec fn param_id(i: nat) -> Seq<char> {
    "["@ + decimal_digits(i) + "]"@
}

/// The name of a test as written, qualified by its class if it has one.
pub open spec fn qualify(class_name: Option<Seq<char>>, name: Seq<char>) -> Seq<char> {
    match class_name {
        Some(c) => c + "."@ + name,
        None => name,
    }
}

/// The keywords a test answers to, before removing repetitions: its own name,
/// then its class and class-qualified name, then its marks.
pub open spec fn keyword_candidates(
    name: Seq<char>,
    class_name: Option<Seq<char>>,
    marks: Seq<Seq<char>>,
) -> Seq<Seq<char>> {
    match class_name {
        Some(c) => seq![name, c, c + "."@ + name] + marks,
        None => seq![name] + marks,
    }
}

/// The names (without class) that a test function stands for: one per
/// parameter set, or its own name.
pub open spec fn test_variants(f: PyFunction) -> Seq<Seq<char>> {
    match first_param_count(f.decorators@) {
        Some(n) => Seq::new(n, |i: int| f.name@ + param_id(i as nat)),
        None => seq![f.name@],
    }
}

/// The tests that a test function stands for.
pub open spec fn function_tests(
    f: PyFunction,
    class_name: Option<Seq<char>>,
    class_marks: Seq<Seq<char>>,
) -> Seq<TestEntry> {
    let marks = collect_marks(f.decorators@) + class_marks;
    test_variants(f).map_values(|v: Seq<char>| entry_for(v, class_name, marks))
}

/// The test named `v` (before class qualification) with the given marks.
pub open spec fn entry_for(v: Seq<char>, class_name: Option<Seq<char>>, marks: Seq<Seq<char>>) -> TestEntry {
    (qualify(class_name, v), marks, dedup(keyword_candidates(v, class_name, marks)))
}

/// A name that collection reads as a test function.
pub open spec fn is_test_function_name(name: Seq<char>) -> bool {
    starts_with_seq(name, "test_"@)
}

/// A name that collection reads as a test class.
pub open spec fn is_test_class_name(name: Seq<char>) -> bool {
    starts_with_seq(name, "Test"@)
}

/// The tests in the first members of a test class.
pub open spec fn members_tests(
    members: Seq<ClassMember>,
    class_name: Seq<char>,
    class_marks: Seq<Seq<char>>,
) -> Seq<TestEntry>
    decreases members.len(),
{
    if members.len() == 0 {
        seq![]
    } else {
        members_tests(members.drop_last(), class_name, class_marks) + match members.last() {
            ClassMember::Method(f) => if is_test_function_name(f.name@) {
                function_tests(f, Some(class_name), class_marks)
            } else {
                seq![]
            },
            ClassMember::Other => seq![],
        }
    }
}

/// The tests that one top-level statement holds.
pub open spec fn stmt_tests(s: PyStmt) -> Seq<TestEntry> {
    match s {
        PyStmt::Function(f) => if is_test_function_name(f.name@) {
            function_tests(f, None, seq![])
        } else {
            seq![]
        },
        PyStmt::Class(c) => if is_test_class_name(c.name@) {
            members_tests(c.body@, c.name@, collect_marks(c.decorators@))
        } else {
            seq![]
        },
        PyStmt::Other => seq![],
    }
}

/// The tests of a module, in source order.
pub open spec fn module_tests(stmts: Seq<PyStmt>) -> Seq<TestEntry>
    decreases stmts.len(),
{
    if stmts.len() == 0 {
        seq![]
    } else {
        module_tests(stmts.drop_last()) + stmt_tests(stmts.last())
    }
}

// ---------------------------------------------------------------------------
// Executable rules.

/// Whether `id` is one of the module names of the runner's API.
fn runner_module(id: &String) -> (r: bool)
    ensures
        r == is_runner_module(id@),
{
    same_text(id.as_str(), "pytest") || same_text(id.as_str(), "cobratest")
}

/// The mark a decorator applies, if any.
pub fn decorator_mark(e: &PyExpr) -> (r: Option<String>)
    ensures
        r matches Some(m) ==> mark_name(*e) == Some(m@),
        r is None ==> mark_name(*e) is None,
    decreases e,
{
    match e {
        PyExpr::Call(f, _) => decorator_mark(f),
        PyExpr::Attribute(v, attr) => match &**v {
            PyExpr::Name(id) => {
                if same_text(id.as_str(), "mark") {
                    Some(attr.clone())
                } else {
                    None
                }
            },
            PyExpr::Attribute(vv, inner) => {
                let under_runner = match &**vv {
                    PyExpr::Name(id) => runner_module(id),
                    _ => false,
                };
                if same_text(inner.as_str(), "mark") && under_runner {
                    Some(attr.clone())
                } else {
                    None
                }
            },
            _ => None,
        },
        _ => None,
    }
}

/// Whether a decorator declares a fixture.
pub fn declares_fixture(e: &PyExpr) -> (r: bool)
    ensures
        r == is_fixture_decorator(*e),
    decreases e,
{
    match e {
        PyExpr::Call(f, _) => declares_fixture(f),
        PyExpr::Attribute(v, attr) => {
            if !same_text(attr.as_str(), "fixture") {
                return false;
            }
            match &**v {
                PyExpr::Name(id) => runner_module(id) || same_text(id.as_str(), "mark"),
                PyExpr::Attribute(vv, inner) => {
                    same_text(inner.as_str(), "mark") && match &**vv {
                        PyExpr::Name(id) => runner_module(id),
                        _ => false,
                    }
                },
                _ => false,
            }
        },
        PyExpr::Name(id) => same_text(id.as_str(), "fixture"),
        PyExpr::Other => false,
        PyExpr::List(_) => false,
    }
}

/// The parameter-set count of a parametrize decorator.
pub fn parametrize_sets(e: &PyExpr) -> (r: Option<usize>)
    ensures
        r matches Some(n) ==> parametrize_count(*e) == Some(n as nat),
        r is None ==> parametrize_count(*e) is None,
{
    match e {
        PyExpr::Call(f, args) => {
            let named = match &**f {
                PyExpr::Attribute(_, attr) => same_text(attr.as_str(), "parametrize"),
                _ => false,
            };
            if named && args.len() >= 2 {
                match &args[1] {
                    PyExpr::List(n) => Some(*n),
                    _ => None,
                }
            } else {
                None
            }
        },
        _ => None,
    }
}

/// The parameter-set count of the first decorator parametrizing over a
/// non-empty list.
pub fn first_parametrization(decorators: &Vec<PyExpr>) -> (r: Option<usize>)
    ensures
        r matches Some(n) ==> first_param_count(decorators@) == Some(n as nat),
        r is None ==> first_param_count(decorators@) is None,
{
    let mut i: usize = 0;
    assert(decorators@.skip(0) =~= decorators@);
    while i < decorators.len()
        invariant
            i <= decorators.len(),
            first_param_count(decorators@) == first_param_count(decorators@.skip(i as int)),
        decreases decorators.len() - i,
    {
        assert(decorators@.skip(i as int)[0] == decorators@[i as int]);
        assert(decorators@.skip(i as int).drop_first() =~= decorators@.skip(i + 1));
        match parametrize_sets(&decorators[i]) {
            Some(n) => {
                if n > 0 {
                    return Some(n);
                }
            },
            None => {},
        }
        i += 1;
    }
    assert(decorators@.skip(i as int).len() == 0);
    None
}

/// The marks a list of decorators applies.
pub fn decorator_marks(decorators: &Vec<PyExpr>) -> (r: Vec<String>)
    ensures
        texts(r@) == collect_marks(decorators@),
{
    let mut out: Vec<String> = Vec::new();
    let mut i: usize = 0;
    while i < decorators.len()
        invariant
            i <= decorators.len(),
            texts(out@) == collect_marks(decorators@.take(i as int)),
        decreases decorators.len() - i,
    {
        let ghost before = out@;
        assert(decorators@.take(i + 1).drop_last() =~= decorators@.take(i as int));
        assert(decorators@.take(i + 1).last() == decorators@[i as int]);
        match decorator_mark(&decorators[i]) {
            Some(m) => {
                if chars_of(m.as_str()).len() > 0 {
                    out.push(m);
                    assert(texts(out@) =~= texts(before).push(m@));
                } else {
                    assert(texts(out@) =~= texts(before) + seq![]);
                }
            },
            None => {
                assert(texts(out@) =~= texts(before) + seq![]);
            },
        }
        i += 1;
    }
    assert(decorators@.take(decorators.len() as int) =~= decorators@);
    out
}

/// The text of an optional string.
pub open spec fn opt_text(o: Option<&String>) -> Option<Seq<char>> {
    match o {
        Some(s) => Some(s@),
        None => None,
    }
}

/// The entries of a list of discovered tests.
pub open spec fn entries(v: Seq<DiscoveredTest>) -> Seq<TestEntry> {
    v.map_values(|t: DiscoveredTest| t.entry())
}

/// `[i]`, the id of the `i`-th parameter set.
pub fn param_id_text(i: usize) -> (r: String)
    ensures
        r@ == param_id(i as nat),
{
    let digits = crate::text::decimal_text(i);
    let open = crate::text::concat("[", digits.as_str());
    crate::text::concat(open.as_str(), "]")
}

/// The name of a test, qualified by its class if it has one.
pub fn qualified_name(class_name: Option<&String>, name: &String) -> (r: String)
    ensures
        r@ == qualify(opt_text(class_name), name@),
{
    match class_name {
        Some(c) => {
            let dotted = crate::text::concat(c.as_str(), ".");
            crate::text::concat(dotted.as_str(), name.as_str())
        },
        None => name.clone(),
    }
}

/// The keywords a test answers to, each once.
pub fn test_keywords(name: &String, class_name: Option<&String>, marks: &Vec<String>) -> (r: Vec<String>)
    ensures
        texts(r@) == dedup(keyword_candidates(name@, opt_text(class_name), texts(marks@))),
{
    let ghost cands = keyword_candidates(name@, opt_text(class_name), texts(marks@));
    let mut out: Vec<String> = Vec::new();
    push_unique(&mut out, name.clone());
    let mut done: usize = 1;
    proof {
        assert(seq![name@].drop_last() =~= Seq::<Seq<char>>::empty());
        assert(dedup(Seq::<Seq<char>>::empty()) =~= Seq::<Seq<char>>::empty());
        assert(texts(out@) =~= dedup(seq![name@]));
    }
    match class_name {
        Some(c) => {
            push_unique(&mut out, c.clone());
            proof {
                assert(seq![name@, c@].drop_last() =~= seq![name@]);
                assert(texts(out@) == dedup(seq![name@, c@]));
            }
            let q = qualified_name(class_name, name);
            push_unique(&mut out, q);
            proof {
                assert(seq![name@, c@, q@].drop_last() =~= seq![name@, c@]);
                assert(texts(out@) == dedup(seq![name@, c@, q@]));
            }
            done = 3;
            assert(texts(out@) == dedup(cands.take(3))) by {
                assert(cands.take(3) =~= seq![name@, c@, q@]);
            }
        },
        None => {
            assert(cands.take(1) =~= seq![name@]);
        },
    }
    let mut i: usize = 0;
    while i < marks.len()
        invariant
            i <= marks.len(),
            done == cands.len() - marks.len(),
            cands == keyword_candidates(name@, opt_text(class_name), texts(marks@)),
            texts(out@) == dedup(cands.take(done + i)),
        decreases marks.len() - i,
    {
        let ghost prev = cands.take(done + i);
        push_unique(&mut out, marks[i].clone());
        proof {
            assert(cands[done + i] == marks@[i as int]@);
            assert(cands.take(done + i + 1) =~= prev.push(marks@[i as int]@));
            assert(cands.take(done + i + 1).drop_last() =~= prev);
        }
        i += 1;
    }
    assert(cands.take(done + i) =~= cands);
    out
}

/// Appends the tests a test function stands for.
pub fn push_function_tests(
    f: &PyFunction,
    class_name: Option<&String>,
    class_marks: &Vec<String>,
    out: &mut Vec<DiscoveredTest>,
)
    ensures
        entries(final(out)@) == entries(old(out)@) + function_tests(*f, opt_text(class_name), texts(class_marks@)),
{
    let mut marks = decorator_marks(&f.decorators);
    append_strings(&mut marks, class_marks);
    let ghost all = function_tests(*f, opt_text(class_name), texts(class_marks@));
    let ghost mk = collect_marks(f.decorators@) + texts(class_marks@);
    let ghost start = entries(out@);
    assert(texts(marks@) == mk);
    match first_parametrization(&f.decorators) {
        Some(n) => {
            let mut i: usize = 0;
            while i < n
                invariant
                    i <= n,
                    first_param_count(f.decorators@) == Some(n as nat),
                    texts(marks@) == mk,
                    all == function_tests(*f, opt_text(class_name), texts(class_marks@)),
                    mk == collect_marks(f.decorators@) + texts(class_marks@),
                    entries(out@) == start + all.take(i as int),
                decreases n - i,
            {
                let id = param_id_text(i);
                let variant = crate::text::concat(f.name.as_str(), id.as_str());
                let name = qualified_name(class_name, &variant);
                let keywords = test_keywords(&variant, class_name, &marks);
                let ghost before = out@;
                out.push(DiscoveredTest { name, marks: copy_strings(&marks), extra_keywords: keywords });
                proof {
                    assert(test_variants(*f)[i as int] == variant@);
                    assert(all[i as int] == entry_for(variant@, opt_text(class_name), mk));
                    assert(entries(out@) =~= entries(before).push(all[i as int]));
                    assert(all.take(i + 1) =~= all.take(i as int).push(all[i as int]));
                }
                i += 1;
            }
            assert(all.take(n as int) =~= all);
        },
        None => {
            let name = qualified_name(class_name, &f.name);
            let keywords = test_keywords(&f.name, class_name, &marks);
            let ghost before = out@;
            out.push(DiscoveredTest { name, marks, extra_keywords: keywords });
            proof {
                assert(test_variants(*f) =~= seq![f.name@]);
                assert(all =~= seq![entry_for(f.name@, opt_text(class_name), mk)]);
                assert(entries(out@) =~= entries(before).push(all[0]));
                assert(entries(out@) =~= start + all);
            }
        },
    }
}

/// Whether the name reads as a test function.
fn test_function_name(name: &String) -> (r: bool)
    ensures
        r == is_test_function_name(name@),
{
    crate::text::starts_with_text(name.as_str(), "test_")
}

/// Whether the name reads as a test class.
fn test_class_name(name: &String) -> (r: bool)
    ensures
        r == is_test_class_name(name@),
{
    crate::text::starts_with_text(name.as_str(), "Test")
}

/// The tests of a test class.
fn push_class_tests(c: &PyClass, out: &mut Vec<DiscoveredTest>)
    ensures
        entries(final(out)@) == entries(old(out)@) + members_tests(c.body@, c.name@, collect_marks(c.decorators@)),
{
    let class_marks = decorator_marks(&c.decorators);
    let ghost start = entries(out@);
    let mut i: usize = 0;
    while i < c.body.len()
        invariant
            i <= c.body.len(),
            texts(class_marks@) == collect_marks(c.decorators@),
            entries(out@) == start + members_tests(c.body@.take(i as int), c.name@, texts(class_marks@)),
        decreases c.body.len() - i,
    {
        let ghost before = entries(out@);
        proof {
            assert(c.body@.take(i + 1).drop_last() =~= c.body@.take(i as int));
            assert(c.body@.take(i + 1).last() == c.body@[i as int]);
        }
        match &c.body[i] {
            ClassMember::Method(f) => {
                if test_function_name(&f.name) {
                    push_function_tests(f, Some(&c.name), &class_marks, out);
                } else {
                    assert(entries(out@) =~= before + Seq::<TestEntry>::empty());
                }
            },
            ClassMember::Other => {
                assert(entries(out@) =~= before + Seq::<TestEntry>::empty());
            },
        }
        proof {
            assert(entries(out@) =~= start + members_tests(c.body@.take(i + 1), c.name@, texts(class_marks@)));
        }
        i += 1;
    }
    assert(c.body@.take(c.body.len() as int) =~= c.body@);
}

/// The tests of a module, in source order: test functions at top level (one
/// per parameter set), and test methods of test classes, qualified by class.
pub fn discover_module(module: &ModuleOutline) -> (r: Vec<DiscoveredTest>)
    ensures
        entries(r@) == module_tests(module.body@),
{
    let mut out: Vec<DiscoveredTest> = Vec::new();
    let mut i: usize = 0;
    assert(entries(out@) =~= module_tests(module.body@.take(0)));
    while i < module.body.len()
        invariant
            i <= module.body.len(),
            entries(out@) == module_tests(module.body@.take(i as int)),
        decreases module.body.len() - i,
    {
        let ghost before = entries(out@);
        proof {
            assert(module.body@.take(i + 1).drop_last() =~= module.body@.take(i as int));
            assert(module.body@.take(i + 1).last() == module.body@[i as int]);
        }
        match &module.body[i] {
            PyStmt::Function(f) => {
                if test_function_name(&f.name) {
                    let no_marks: Vec<String> = Vec::new();
                    assert(texts(no_marks@) =~= Seq::<Seq<char>>::empty());
                    push_function_tests(f, None, &no_marks, &mut out);
                } else {
                    assert(entries(out@) =~= before + Seq::<TestEntry>::empty());
                }
            },
            PyStmt::Class(c) => {
                if test_class_name(&c.name) {
                    push_class_tests(c, &mut out);
                } else {
                    assert(entries(out@) =~= before + Seq::<TestEntry>::empty());
                }
            },
            PyStmt::Other => {
                assert(entries(out@) =~= before + Seq::<TestEntry>::empty());
            },
        }
        i += 1;
    }
    assert(module.body@.take(module.body.len() as int) =~= module.body@);
    out
}

// ---------------------------------------------------------------------------
// Laws of discovery.

/// The full name of a collected test: a test function's name, or a test
/// class's name, a dot and a test method's name.
pub open spec fn is_test_shaped(name: Seq<char>) -> bool {
    is_test_function_name(name) || exists|c: Seq<char>, m: Seq<char>|
        name == c + "."@ + m && is_test_class_name(c) && is_test_function_name(m)
}

proof fn lemma_prefix_kept(a: Seq<char>, b: Seq<char>, p: Seq<char>)
    requires
        starts_with_seq(a, p),
    ensures
        starts_with_seq(a + b, p),
{
    assert((a + b).subrange(0, p.len() as int) =~= a.subrange(0, p.len() as int));
}

/// Every variant of a test function keeps the function's name as a prefix.
proof fn lemma_variants_keep_prefix(f: PyFunction, p: Seq<char>)
    requires
        starts_with_seq(f.name@, p),
    ensures
        forall|i: int| 0 <= i < test_variants(f).len() ==> starts_with_seq(#[trigger] test_variants(f)[i], p),
{
    assert forall|i: int| 0 <= i < test_variants(f).len() implies starts_with_seq(#[trigger] test_variants(f)[i], p) by {
        match first_param_count(f.decorators@) {
            Some(n) => {
                lemma_prefix_kept(f.name@, param_id(i as nat), p);
            },
            None => {},
        }
    }
}

/// The entries of one test function: shaped names, and keywords that hold the
/// full name and every mark, each once.
pub open spec fn well_formed_entry(e: TestEntry) -> bool {
    &&& is_test_shaped(e.0)
    &&& e.2.contains(e.0)
    &&& forall|k: int| 0 <= k < e.1.len() ==> e.2.contains(#[trigger] e.1[k])
    &&& e.2.no_duplicates()
}

proof fn lemma_function_tests_well_formed(f: PyFunction, class_name: Option<Seq<char>>, class_marks: Seq<Seq<char>>)
    requires
        is_test_function_name(f.name@),
        class_name matches Some(c) ==> is_test_class_name(c),
    ensures
        forall|i: int| 0 <= i < function_tests(f, class_name, class_marks).len()
            ==> well_formed_entry(#[trigger] function_tests(f, class_name, class_marks)[i]),
{
    let marks = collect_marks(f.decorators@) + class_marks;
    lemma_variants_keep_prefix(f, "test_"@);
    assert forall|i: int| 0 <= i < function_tests(f, class_name, class_marks).len()
        implies well_formed_entry(#[trigger] function_tests(f, class_name, class_marks)[i]) by {
        let v = test_variants(f)[i];
        let e = entry_for(v, class_name, marks);
        assert(function_tests(f, class_name, class_marks)[i] == e);
        let cands = keyword_candidates(v, class_name, marks);
        crate::text::lemma_dedup(cands);
        match class_name {
            Some(c) => {
                assert(cands[2] == e.0);
                assert(is_test_shaped(e.0)) by {
                    assert(e.0 == c + "."@ + v);
                }
                assert forall|k: int| 0 <= k < e.1.len() implies e.2.contains(#[trigger] e.1[k]) by {
                    assert(cands[3 + k] == e.1[k]);
                    assert(cands.contains(e.1[k]));
                }
                assert(cands.contains(e.0));
            },
            None => {
                assert(cands[0] == e.0);
                assert forall|k: int| 0 <= k < e.1.len() implies e.2.contains(#[trigger] e.1[k]) by {
                    assert(cands[1 + k] == e.1[k]);
                    assert(cands.contains(e.1[k]));
                }
                assert(cands.contains(e.0));
                assert(starts_with_seq(test_variants(f)[i], "test_"@));
                assert(is_test_shaped(e.0));
            },
        }
    }
}

proof fn lemma_members_tests_well_formed(members: Seq<ClassMember>, class_name: Seq<char>, class_marks: Seq<Seq<char>>)
    requires
        is_test_class_name(class_name),
    ensures
        forall|i: int| 0 <= i < members_tests(members, class_name, class_marks).len()
            ==> well_formed_entry(#[trigger] members_tests(members, class_name, class_marks)[i]),
    decreases members.len(),
{
    if members.len() > 0 {
        lemma_members_tests_well_formed(members.drop_last(), class_name, class_marks);
        let a = members_tests(members.drop_last(), class_name, class_marks);
        let b = match members.last() {
            ClassMember::Method(f) => if is_test_function_name(f.name@) {
                function_tests(f, Some(class_name), class_marks)
            } else {
                seq![]
            },
            ClassMember::Other => seq![],
        };
        match members.last() {
            ClassMember::Method(f) => if is_test_function_name(f.name@) {
                lemma_function_tests_well_formed(f, Some(class_name), class_marks);
            },
            ClassMember::Other => {},
        }
        assert forall|i: int| 0 <= i < (a + b).len() implies well_formed_entry(#[trigger] (a + b)[i]) by {
            if i >= a.len() {
                assert((a + b)[i] == b[i - a.len()]);
            }
        }
    }
}

/// Every test that discovery finds has the shape of a test name (a `test_`
/// function, or a `test_` method of a `Test` class), answers to its own full
/// name and to each of its marks as keywords, and lists each keyword once.
pub proof fn lemma_discovered_tests_well_formed(stmts: Seq<PyStmt>)
    ensures
        forall|i: int| 0 <= i < module_tests(stmts).len() ==> well_formed_entry(#[trigger] module_tests(stmts)[i]),
    decreases stmts.len(),
{
    if stmts.len() > 0 {
        lemma_discovered_tests_well_formed(stmts.drop_last());
        let a = module_tests(stmts.drop_last());
        let b = stmt_tests(stmts.last());
        match stmts.last() {
            PyStmt::Function(f) => if is_test_function_name(f.name@) {
                lemma_function_tests_well_formed(f, None, seq![]);
            },
            PyStmt::Class(c) => if is_test_class_name(c.name@) {
                lemma_members_tests_well_formed(c.body@, c.name@, collect_marks(c.decorators@));
            },
            PyStmt::Other => {},
        }
        assert forall|i: int| 0 <= i < (a + b).len() implies well_formed_entry(#[trigger] (a + b)[i]) by {
            if i >= a.len() {
                assert((a + b)[i] == b[i - a.len()]);
            }
        }
    }
}

/// A called decorator declares a fixture exactly when what it calls does:
/// `@pytest.fixture(scope="module")` as `@pytest.fixture`, `@fixture()` as
/// `@fixture`, whatever the arguments.
pub proof fn lemma_called_fixture_decorator(f: PyExpr, args: Vec<PyExpr>)
    ensures
        is_fixture_decorator(PyExpr::Call(Box::new(f), args)) == is_fixture_decorator(f),
{
}

/// The decorators `@fixture` and `@M.fixture`, for `M` a name under which the
/// runner's API is imported (`pytest` among them), declare fixtures, called or
/// not.
pub proof fn lemma_fixture_decorator_forms(id: String, module: String, attr: String, args: Vec<PyExpr>)
    requires
        id@ == "fixture"@,
        is_runner_module(module@),
        attr@ == "fixture"@,
    ensures
        is_fixture_decorator(PyExpr::Name(id)),
        is_fixture_decorator(PyExpr::Attribute(Box::new(PyExpr::Name(module)), attr)),
        is_fixture_decorator(PyExpr::Call(Box::new(PyExpr::Name(id)), args)),
        is_fixture_decorator(PyExpr::Call(Box::new(PyExpr::Attribute(Box::new(PyExpr::Name(module)), attr)), args)),
{
    let name = PyExpr::Name(id);
    let attribute = PyExpr::Attribute(Box::new(PyExpr::Name(module)), attr);
    assert(is_fixture_decorator(name));
    assert(is_fixture_decorator(attribute));
    lemma_called_fixture_decorator(name, args);
    lemma_called_fixture_decorator(attribute, args);
}

/// A called decorator applies the mark that what it calls applies:
/// `@pytest.mark.slow(reason="...")` as `@pytest.mark.slow`.
pub proof fn lemma_called_mark(f: PyExpr, args: Vec<PyExpr>)
    ensures
        mark_name(PyExpr::Call(Box::new(f), args)) == mark_name(f),
{
}

/// `@mark.NAME` and `@M.mark.NAME`, for `M` a name under which the runner's API
/// is imported, apply the mark `NAME`, called or not.
pub proof fn lemma_mark_decorator_forms(mark_word: String, module: String, name: String, args: Vec<PyExpr>)
    requires
        mark_word@ == "mark"@,
        is_runner_module(module@),
    ensures
        mark_name(PyExpr::Attribute(Box::new(PyExpr::Name(mark_word)), name)) == Some(name@),
        mark_name(PyExpr::Attribute(Box::new(PyExpr::Attribute(Box::new(PyExpr::Name(module)), mark_word)), name))
            == Some(name@),
        mark_name(PyExpr::Call(Box::new(PyExpr::Attribute(Box::new(PyExpr::Name(mark_word)), name)), args)) == Some(
            name@,
        ),
{
    let short = PyExpr::Attribute(Box::new(PyExpr::Name(mark_word)), name);
    assert(mark_name(short) == Some(name@));
    lemma_called_mark(short, args);
}

/// The marks of decorators written one list after another are the marks of
/// the first list, then those of the second: marks keep source order.
pub proof fn lemma_collect_marks_concat(a: Seq<PyExpr>, b: Seq<PyExpr>)
    ensures
        collect_marks(a + b) == collect_marks(a) + collect_marks(b),
    decreases b.len(),
{
    if b.len() == 0 {
        assert(a + b =~= a);
        assert(collect_marks(a) + collect_marks(b) =~= collect_marks(a));
    } else {
        lemma_collect_marks_concat(a, b.drop_last());
        assert((a + b).drop_last() =~= a + b.drop_last());
        assert((a + b).last() == b.last());
        assert(collect_marks(a + b) =~= collect_marks(a) + collect_marks(b));
    }
}

/// A decorator list applies exactly the non-empty marks its decorators name.
pub proof fn lemma_collect_marks_members(decorators: Seq<PyExpr>, m: Seq<char>)
    ensures
        collect_marks(decorators).contains(m) <==> exists|i: int|
            0 <= i < decorators.len() && mark_name(#[trigger] decorators[i]) == Some(m) && m.len() > 0,
    decreases decorators.len(),
{
    if decorators.len() > 0 {
        let p = decorators.drop_last();
        let l = decorators.last();
        lemma_collect_marks_members(p, m);
        let tail = match mark_name(l) {
            Some(x) => if x.len() > 0 { seq![x] } else { seq![] },
            None => seq![],
        };
        assert(collect_marks(decorators) == collect_marks(p) + tail);
        if collect_marks(decorators).contains(m) {
            let k = choose|k: int| 0 <= k < collect_marks(decorators).len() && collect_marks(decorators)[k] == m;
            if k < collect_marks(p).len() {
                assert(collect_marks(p)[k] == m);
                let i = choose|i: int| 0 <= i < p.len() && mark_name(#[trigger] p[i]) == Some(m) && m.len() > 0;
                assert(decorators[i] == p[i]);
            } else {
                assert(decorators[decorators.len() - 1] == l);
            }
        }
        if exists|i: int| 0 <= i < decorators.len() && mark_name(#[trigger] decorators[i]) == Some(m) && m.len() > 0 {
            let i = choose|i: int| 0 <= i < decorators.len() && mark_name(#[trigger] decorators[i]) == Some(m) && m.len() > 0;
            if i < p.len() {
                assert(p[i] == decorators[i]);
                let k = choose|k: int| 0 <= k < collect_marks(p).len() && collect_marks(p)[k] == m;
                assert(collect_marks(decorators)[k] == m);
            } else {
                assert(collect_marks(decorators)[collect_marks(p).len() as int] == m);
            }
        }
    }
}

/// The tests of statements written one list after another are the tests of
/// the first list, then those of the second: tests keep source order.
pub proof fn lemma_module_tests_concat(a: Seq<PyStmt>, b: Seq<PyStmt>)
    ensures
        module_tests(a + b) == module_tests(a) + module_tests(b),
    decreases b.len(),
{
    if b.len() == 0 {
        assert(a + b =~= a);
        assert(module_tests(a) + module_tests(b) =~= module_tests(a));
    } else {
        lemma_module_tests_concat(a, b.drop_last());
        assert((a + b).drop_last() =~= a + b.drop_last());
        assert((a + b).last() == b.last());
        assert(module_tests(a + b) =~= module_tests(a) + module_tests(b));
    }
}

/// A test answers to exactly these keywords, each once: its own name, its
/// class and class-qualified name when it has a class, and each of its marks.
pub proof fn lemma_test_keywords(v: Seq<char>, class_name: Option<Seq<char>>, marks: Seq<Seq<char>>, x: Seq<char>)
    ensures
        entry_for(v, class_name, marks).2.no_duplicates(),
        entry_for(v, class_name, marks).2.contains(x) <==> (x == v || marks.contains(x) || (class_name matches Some(c)
            && (x == c || x == c + "."@ + v))),
{
    let cands = keyword_candidates(v, class_name, marks);
    lemma_dedup(cands);
    match class_name {
        Some(c) => {
            let head = seq![v, c, c + "."@ + v];
            assert(cands == head + marks);
            if cands.contains(x) {
                let k = choose|k: int| 0 <= k < cands.len() && cands[k] == x;
                if k >= 3 {
                    assert(marks[k - 3] == x);
                }
            }
            if x == v {
                assert(cands[0] == x);
            }
            if x == c {
                assert(cands[1] == x);
            }
            if x == c + "."@ + v {
                assert(cands[2] == x);
            }
            if marks.contains(x) {
                let k = choose|k: int| 0 <= k < marks.len() && marks[k] == x;
                assert(cands[k + 3] == x);
            }
        },
        None => {
            assert(cands == seq![v] + marks);
            if cands.contains(x) {
                let k = choose|k: int| 0 <= k < cands.len() && cands[k] == x;
                if k >= 1 {
                    assert(marks[k - 1] == x);
                }
            }
            if x == v {
                assert(cands[0] == x);
            }
            if marks.contains(x) {
                let k = choose|k: int| 0 <= k < marks.len() && marks[k] == x;
                assert(cands[k + 1] == x);
            }
        },
    }
}

/// A function that no decorator parametrizes stands for one test, named as
/// written, with its decorators' marks; a function or class whose name is not
/// a test name, and any other statement, stands for none.
pub proof fn lemma_single_and_non_tests(f: PyFunction, c: PyClass)
    ensures
        is_test_function_name(f.name@) && first_param_count(f.decorators@) is None ==> stmt_tests(
            PyStmt::Function(f),
        ).len() == 1 && stmt_tests(PyStmt::Function(f))[0].0 == f.name@ && stmt_tests(PyStmt::Function(f))[0].1
            == collect_marks(f.decorators@),
        !is_test_function_name(f.name@) ==> stmt_tests(PyStmt::Function(f)).len() == 0,
        !is_test_class_name(c.name@) ==> stmt_tests(PyStmt::Class(c)).len() == 0,
        stmt_tests(PyStmt::Other).len() == 0,
{
    let marks = collect_marks(f.decorators@) + Seq::<Seq<char>>::empty();
    assert(marks =~= collect_marks(f.decorators@));
}

/// The decorator at `i` parametrizes over a non-empty list.
pub open spec fn parametrizes_at(decorators: Seq<PyExpr>, i: int) -> bool {
    parametrize_count(decorators[i]) matches Some(n) && n > 0
}

/// The parameter sets come from the first decorator, in source order, that
/// parametrizes over a non-empty list, whatever the decorators after it say.
pub proof fn lemma_first_parametrize_decides(decorators: Seq<PyExpr>, i: int, n: nat)
    requires
        0 <= i < decorators.len(),
        parametrize_count(decorators[i]) == Some(n),
        n > 0,
        forall|j: int| 0 <= j < i ==> !parametrizes_at(decorators, j),
    ensures
        first_param_count(decorators) == Some(n),
    decreases i,
{
    if i > 0 {
        let rest = decorators.drop_first();
        assert(!parametrizes_at(decorators, 0));
        assert forall|j: int| 0 <= j < i - 1 implies !parametrizes_at(rest, j) by {
            assert(rest[j] == decorators[j + 1]);
            assert(!parametrizes_at(decorators, j + 1));
        }
        assert(rest[i - 1] == decorators[i]);
        lemma_first_parametrize_decides(rest, i - 1, n);
    }
}

/// Without a decorator that parametrizes over a non-empty list, a function
/// stands for one test; with one, the count is that of the first such.
pub proof fn lemma_param_count_has_source(decorators: Seq<PyExpr>)
    ensures
        first_param_count(decorators) is None <==> forall|j: int|
            0 <= j < decorators.len() ==> !parametrizes_at(decorators, j),
        first_param_count(decorators) matches Some(n) ==> n > 0 && exists|i: int|
            0 <= i < decorators.len() && parametrize_count(decorators[i]) == Some(n) && forall|j: int|
                0 <= j < i ==> !parametrizes_at(decorators, j),
    decreases decorators.len(),
{
    if decorators.len() > 0 {
        let rest = decorators.drop_first();
        lemma_param_count_has_source(rest);
        if parametrizes_at(decorators, 0) {
            assert(parametrize_count(decorators[0]) == first_param_count(decorators));
        } else {
            assert forall|j: int| 1 <= j < decorators.len() implies (parametrizes_at(decorators, j)
                == parametrizes_at(rest, j - 1)) by {
                assert(rest[j - 1] == decorators[j]);
            }
            if first_param_count(decorators) is None {
                assert forall|j: int| 0 <= j < decorators.len() implies !parametrizes_at(decorators, j) by {
                    if j > 0 {
                        assert(rest[j - 1] == decorators[j]);
                    }
                }
            } else {
                assert(exists|j: int| 0 <= j < rest.len() && parametrizes_at(rest, j));
                let j = choose|j: int| 0 <= j < rest.len() && parametrizes_at(rest, j);
                assert(rest[j] == decorators[j + 1]);
                assert(parametrizes_at(decorators, j + 1));
                let n = first_param_count(decorators)->0;
                let i = choose|i: int|
                    0 <= i < rest.len() && parametrize_count(rest[i]) == Some(n) && forall|q: int|
                        0 <= q < i ==> !parametrizes_at(rest, q);
                assert(rest[i] == decorators[i + 1]);
                assert forall|q: int| 0 <= q < i + 1 implies !parametrizes_at(decorators, q) by {
                    if q > 0 {
                        assert(rest[q - 1] == decorators[q]);
                    }
                }
            }
        }
    }
}

/// A test function whose first decorator that parametrizes over a non-empty
/// list has `n` parameter sets stands for exactly `n` tests, named by index,
/// whatever later decorators say.
pub proof fn lemma_test_count_from_first_parametrize(f: PyFunction, i: int, n: nat)
    requires
        is_test_function_name(f.name@),
        0 <= i < f.decorators@.len(),
        parametrize_count(f.decorators@[i]) == Some(n),
        n > 0,
        forall|j: int| 0 <= j < i ==> !parametrizes_at(f.decorators@, j),
    ensures
        stmt_tests(PyStmt::Function(f)).len() == n,
        forall|k: int| 0 <= k < n ==> (#[trigger] stmt_tests(PyStmt::Function(f))[k]).0 == f.name@ + "["@
            + decimal_digits(k as nat) + "]"@,
{
    lemma_first_parametrize_decides(f.decorators@, i, n);
    lemma_parametrized_function_expands(f, n);
}

/// A top-level test function parametrized over a list of `n` values (its first
/// such decorator) stands for `n` tests, the `i`-th named `NAME[i]`, all with
/// the same marks.
pub proof fn lemma_parametrized_function_expands(f: PyFunction, n: nat)
    requires
        is_test_function_name(f.name@),
        first_param_count(f.decorators@) == Some(n),
    ensures
        stmt_tests(PyStmt::Function(f)).len() == n,
        forall|i: int| 0 <= i < n ==> (#[trigger] stmt_tests(PyStmt::Function(f))[i]).0 == f.name@ + "["@
            + decimal_digits(i as nat) + "]"@,
        forall|i: int| 0 <= i < n ==> (#[trigger] stmt_tests(PyStmt::Function(f))[i]).1 == collect_marks(f.decorators@),
{
    let marks = collect_marks(f.decorators@) + Seq::<Seq<char>>::empty();
    assert(marks =~= collect_marks(f.decorators@));
    assert forall|i: int| 0 <= i < n implies (#[trigger] stmt_tests(PyStmt::Function(f))[i]).0 == f.name@ + "["@
        + decimal_digits(i as nat) + "]"@ by {
        assert(test_variants(f)[i] == f.name@ + param_id(i as nat));
        assert(f.name@ + param_id(i as nat) =~= f.name@ + "["@ + decimal_digits(i as nat) + "]"@);
    }
}

} // verus!

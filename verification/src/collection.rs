//! Collection: which files are read, which discovered tests are kept, and
//! how the collected tests are summarised.
use vstd::prelude::*;
use crate::globs::{any_glob_matches, build_ignore_globset, glob_set_builds, glob_pattern_valid, glob_set_is_match, glob_set_matches};
use crate::ordering::{insert_sorted_unique, strictly_sorted_texts, text_set};
use crate::outline::DiscoveredTest;
use crate::text::copy_strings;
use crate::paths::{has_py_extension, ignore_covers, is_python_source, matches_ignore_path};
use crate::selection::{admitted, plainly_evaluable, keyword_selects, mark_selects, match_keyword, match_markexpr};
use crate::types::{texts, OxError, RunConfig, TestItem};

verus! {

/// Some `--ignore` entry covers the path, or some `--ignore-glob` pattern
/// matches it.
pub open spec fn ignored_by(
    path: Seq<char>,
    base: Seq<char>,
    ignore_paths: Seq<Seq<char>>,
    globs: globset::GlobSet,
) -> bool {
    (exists|i: int| 0 <= i < ignore_paths.len() && ignore_covers(path, base, #[trigger] ignore_paths[i]))
        || glob_set_matches(globs).contains(path)
}

/// Every `--ignore` entry counts: one that covers the path excludes it,
/// wherever it stands among the entries, and so does a matching glob.
pub proof fn lemma_any_ignore_entry_excludes(
    path: Seq<char>,
    base: Seq<char>,
    ignore_paths: Seq<Seq<char>>,
    globs: globset::GlobSet,
    i: int,
)
    requires
        (0 <= i < ignore_paths.len() && ignore_covers(path, base, ignore_paths[i])) || glob_set_matches(
            globs,
        ).contains(path),
    ensures
        ignored_by(path, base, ignore_paths, globs),
{
}

/// An excluded path is covered by one of the `--ignore` entries or matched by
/// the glob set.
pub proof fn lemma_excluded_has_reason(path: Seq<char>, base: Seq<char>, ignore_paths: Seq<Seq<char>>, globs: globset::GlobSet)
    requires
        ignored_by(path, base, ignore_paths, globs),
    ensures
        glob_set_matches(globs).contains(path) || exists|i: int|
            0 <= i < ignore_paths.len() && ignore_covers(path, base, #[trigger] ignore_paths[i]),
{
}

/// More `--ignore` entries exclude no fewer paths: when every entry of `fewer`
/// is among `more`, a path excluded under `fewer` is excluded under `more` (so
/// the order of the entries does not matter either).
pub proof fn lemma_more_ignore_entries(
    path: Seq<char>,
    base: Seq<char>,
    fewer: Seq<Seq<char>>,
    more: Seq<Seq<char>>,
    globs: globset::GlobSet,
)
    requires
        ignored_by(path, base, fewer, globs),
        forall|k: int| 0 <= k < fewer.len() ==> more.contains(#[trigger] fewer[k]),
    ensures
        ignored_by(path, base, more, globs),
{
    if !glob_set_matches(globs).contains(path) {
        let k = choose|k: int| 0 <= k < fewer.len() && ignore_covers(path, base, #[trigger] fewer[k]);
        assert(more.contains(fewer[k]));
        let m = choose|m: int| 0 <= m < more.len() && more[m] == fewer[k];
        assert(ignore_covers(path, base, more[m]));
    }
}

/// Whether the path is excluded from collection under `base`.
pub fn is_ignored(path: &str, base: &str, ignore_paths: &Vec<String>, globset: &globset::GlobSet) -> (r: bool)
    ensures
        r == ignored_by(path@, base@, texts(ignore_paths@), *globset),
{
    let mut i: usize = 0;
    while i < ignore_paths.len()
        invariant
            i <= ignore_paths.len(),
            forall|j: int| 0 <= j < i ==> !ignore_covers(path@, base@, #[trigger] texts(ignore_paths@)[j]),
        decreases ignore_paths.len() - i,
    {
        if matches_ignore_path(path, base, ignore_paths[i].as_str()) {
            assert(texts(ignore_paths@)[i as int] == ignore_paths@[i as int]@);
            return true;
        }
        i += 1;
    }
    glob_set_is_match(globset, path)
}

/// The rules that decide which files under a base path are collected.
pub struct IgnoreRules {
    pub base: String,
    pub ignore: Vec<String>,
    pub globs: globset::GlobSet,
}

impl IgnoreRules {
    /// The rules for collecting under `base` with the configured `--ignore`
    /// entries and `--ignore-glob` patterns.  Fails, naming the pattern, when a
    /// pattern is not a valid glob.
    pub fn new(base: &str, config: &RunConfig) -> (r: Result<IgnoreRules, OxError>)
        ensures
            r matches Ok(rules) ==> rules.base@ == base@ && texts(rules.ignore@) == texts(config.ignore@)
                && glob_set_matches(rules.globs) == any_glob_matches(texts(config.ignore_glob@)),
            r is Ok <==> (forall|i: int|
                0 <= i < config.ignore_glob.len() ==> glob_pattern_valid(#[trigger] config.ignore_glob@[i]@))
                && glob_set_builds(texts(config.ignore_glob@)),
            (exists|i: int|
                0 <= i < config.ignore_glob.len() && !glob_pattern_valid(#[trigger] config.ignore_glob@[i]@))
                ==> r matches Err(OxError::InvalidGlobPattern { .. }),
            r matches Err(OxError::InvalidGlobPattern { pattern, .. }) ==> exists|i: int|
                0 <= i < config.ignore_glob.len() && config.ignore_glob@[i]@ == pattern@
                    && !glob_pattern_valid(#[trigger] config.ignore_glob@[i]@),
    {
        let globs = build_ignore_globset(&config.ignore_glob)?;
        Ok(IgnoreRules { base: base.to_owned(), ignore: copy_strings(&config.ignore), globs })
    }

    /// The path is excluded by these rules.
    pub open spec fn excludes(&self, path: Seq<char>) -> bool {
        ignored_by(path, self.base@, texts(self.ignore@), self.globs)
    }

    /// A directory entry is collected: it is a file, its extension is `py`, and
    /// the rules do not exclude it.
    pub open spec fn collects_entry(&self, path: Seq<char>, is_file: bool) -> bool {
        is_file && is_python_source(path) && !self.excludes(path)
    }

    /// Whether the directory entry at `path` is collected.
    pub fn collects(&self, path: &str, is_file: bool) -> (r: bool)
        ensures
            r == self.collects_entry(path@, is_file),
    {
        if !is_file {
            return false;
        }
        if !has_py_extension(path) {
            return false;
        }
        !is_ignored(path, self.base.as_str(), &self.ignore, &self.globs)
    }
}

impl TestItem {
    /// The collected test for a test discovered in `file`: its name is both
    /// its short and its full name.
    pub fn from_discovered(file: &str, found: DiscoveredTest) -> (r: TestItem)
        ensures
            r.file@ == file@,
            r.name@ == found.name@,
            r.full_name@ == found.name@,
            r.marks@ == found.marks@,
            r.extra_keywords@ == found.extra_keywords@,
    {
        let full_name = found.name.clone();
        TestItem {
            file: file.to_owned(),
            name: found.name,
            full_name,
            marks: found.marks,
            extra_keywords: found.extra_keywords,
        }
    }
}

/// A test passes the configured filters, judged by its full name, extra
/// keywords and marks: an absent `-k` or `-m` expression passes it, a present
/// one must select it.
pub open spec fn passes(config: RunConfig, full_name: Seq<char>, extras: Seq<Seq<char>>, marks: Seq<Seq<char>>) -> bool {
    (match config.k_expr {
        Some(k) => keyword_selects(k@, full_name, extras),
        None => true,
    }) && (match config.m_expr {
        Some(m) => mark_selects(m@, marks),
        None => true,
    })
}

/// A configured `-k` or `-m` expression is not written in the grammar of
/// selection expressions, so it selects no test.
pub open spec fn blocked(config: RunConfig) -> bool {
    (config.k_expr matches Some(k) && k@.len() > 0 && !admitted(k@)) || (config.m_expr matches Some(m)
        && m@.len() > 0 && !admitted(m@))
}

/// Python evaluates each configured expression on any machine.
pub open spec fn decided(config: RunConfig) -> bool {
    (config.k_expr matches Some(k) ==> plainly_evaluable(k@)) && (config.m_expr matches Some(m)
        ==> plainly_evaluable(m@))
}

/// Whether the test passes the configured `-k` and `-m` filters, as Python
/// evaluates them: an absent or empty expression passes every test, one outside
/// the grammar passes none, and a test kept passes both.
pub fn selected(config: &RunConfig, item: &TestItem) -> (r: bool)
    ensures
        r ==> passes(*config, item.full_name@, texts(item.extra_keywords@), texts(item.marks@)),
        unfiltered(*config) ==> r,
        blocked(*config) ==> !r,
        decided(*config) ==> r == passes(*config, item.full_name@, texts(item.extra_keywords@), texts(item.marks@)),
{
    match &config.k_expr {
        Some(k) => {
            if !match_keyword(k.as_str(), item.full_name.as_str(), &item.extra_keywords) {
                return false;
            }
        },
        None => {},
    }
    match &config.m_expr {
        Some(m) => {
            if !match_markexpr(m.as_str(), &item.marks) {
                return false;
            }
        },
        None => {},
    }
    true
}

/// No `-k` or `-m` expression filters the tests.
pub open spec fn unfiltered(config: RunConfig) -> bool {
    (config.k_expr matches Some(k) ==> k@.len() == 0) && (config.m_expr matches Some(m) ==> m@.len() == 0)
}

/// `item` is the collected test for the test `found` discovered in `file`.
pub open spec fn collected_from(item: TestItem, file: Seq<char>, found: DiscoveredTest) -> bool {
    &&& item.file@ == file
    &&& item.name@ == found.name@
    &&& item.full_name@ == found.name@
    &&& item.marks@ == found.marks@
    &&& item.extra_keywords@ == found.extra_keywords@
}

/// The discovered tests marked in `chosen`, in discovery order.
pub open spec fn chosen_tests(found: Seq<DiscoveredTest>, chosen: Seq<bool>) -> Seq<DiscoveredTest>
    decreases found.len(),
{
    if found.len() == 0 || chosen.len() != found.len() {
        seq![]
    } else {
        let before = chosen_tests(found.drop_last(), chosen.drop_last());
        if chosen.last() {
            before.push(found.last())
        } else {
            before
        }
    }
}

/// A choice among the discovered tests that the configured filters allow: only
/// tests that pass them, every test when nothing filters, and none when an
/// expression is outside the grammar.
pub open spec fn allowed_choice(config: RunConfig, found: Seq<DiscoveredTest>, chosen: Seq<bool>) -> bool {
    &&& chosen.len() == found.len()
    &&& forall|j: int|
        0 <= j < found.len() ==> {
            &&& #[trigger] chosen[j] ==> passes(
                config,
                found[j].name@,
                texts(found[j].extra_keywords@),
                texts(found[j].marks@),
            )
            &&& unfiltered(config) ==> chosen[j]
            &&& blocked(config) ==> !chosen[j]
            &&& decided(config) ==> chosen[j] == passes(
                config,
                found[j].name@,
                texts(found[j].extra_keywords@),
                texts(found[j].marks@),
            )
        }
}

/// The tests collected so far under a set of ignore rules.
pub struct Collection {
    pub rules: IgnoreRules,
    pub tests: Vec<TestItem>,
}

impl Collection {
    /// An empty collection under the rules for `base` and the configuration;
    /// fails as `IgnoreRules::new` does.
    pub fn new(base: &str, config: &RunConfig) -> (r: Result<Collection, OxError>)
        ensures
            r matches Ok(c) ==> c.tests@.len() == 0 && c.rules.base@ == base@ && texts(c.rules.ignore@)
                == texts(config.ignore@) && glob_set_matches(c.rules.globs) == any_glob_matches(
                texts(config.ignore_glob@),
            ),
            r is Ok <==> (forall|i: int|
                0 <= i < config.ignore_glob.len() ==> glob_pattern_valid(#[trigger] config.ignore_glob@[i]@))
                && glob_set_builds(texts(config.ignore_glob@)),
            (exists|i: int|
                0 <= i < config.ignore_glob.len() && !glob_pattern_valid(#[trigger] config.ignore_glob@[i]@))
                ==> r matches Err(OxError::InvalidGlobPattern { .. }),
    {
        let rules = IgnoreRules::new(base, config)?;
        Ok(Collection { rules, tests: Vec::new() })
    }

    /// Adds the tests discovered in `file` that pass the configured filters,
    /// in discovery order, when the rules collect the directory entry `file`
    /// (`is_file` tells whether it is a file); otherwise adds nothing.
    pub fn add_file_tests(&mut self, config: &RunConfig, file: &str, is_file: bool, found: Vec<DiscoveredTest>)
        ensures
            final(self).rules == old(self).rules,
            !old(self).rules.collects_entry(file@, is_file) ==> final(self).tests@ == old(self).tests@,
            old(self).rules.collects_entry(file@, is_file) ==> exists|chosen: Seq<bool>|
                {
                    &&& #[trigger] allowed_choice(*config, found@, chosen)
                    &&& final(self).tests@.len() == old(self).tests@.len() + chosen_tests(found@, chosen).len()
                    &&& final(self).tests@.subrange(0, old(self).tests@.len() as int) == old(self).tests@
                    &&& forall|j: int|
                        0 <= j < chosen_tests(found@, chosen).len() ==> collected_from(
                            #[trigger] final(self).tests@[old(self).tests@.len() + j],
                            file@,
                            chosen_tests(found@, chosen)[j],
                        )
                },
    {
        if !self.rules.collects(file, is_file) {
            return;
        }
        let mut added: Vec<TestItem> = Vec::new();
        let mut rest = found;
        let mut j: usize = 0;
        let total: usize = rest.len();
        let ghost mut chosen: Seq<bool> = Seq::empty();
        assert(found@.take(0) =~= Seq::<DiscoveredTest>::empty());
        while rest.len() > 0
            invariant
                found@.len() == total,
                j + rest.len() == total,
                rest@ == found@.skip(j as int),
                allowed_choice(*config, found@.take(j as int), chosen),
                added@.len() == chosen_tests(found@.take(j as int), chosen).len(),
                forall|q: int| 0 <= q < added@.len() ==> collected_from(
                    #[trigger] added@[q],
                    file@,
                    chosen_tests(found@.take(j as int), chosen)[q],
                ),
            decreases rest.len(),
        {
            let t = rest.remove(0);
            proof {
                assert(t == found@[j as int]);
                assert(rest@ =~= found@.skip(j + 1));
                assert(found@.take(j + 1).drop_last() =~= found@.take(j as int));
                assert(found@.take(j + 1).last() == t);
            }
            let item = TestItem::from_discovered(file, t);
            let ghost before = added@;
            let ghost prev = chosen_tests(found@.take(j as int), chosen);
            let ghost old_chosen = chosen;
            let keep = selected(config, &item);
            proof {
                chosen = chosen.push(keep);
                let f = found@.take(j + 1);
                assert(chosen.drop_last() =~= old_chosen);
                assert(chosen.last() == keep);
                assert forall|q: int| 0 <= q < f.len() implies {
                    &&& #[trigger] chosen[q] ==> passes(*config, f[q].name@, texts(f[q].extra_keywords@), texts(f[q].marks@))
                    &&& unfiltered(*config) ==> chosen[q]
                    &&& blocked(*config) ==> !chosen[q]
                    &&& decided(*config) ==> chosen[q] == passes(
                        *config,
                        f[q].name@,
                        texts(f[q].extra_keywords@),
                        texts(f[q].marks@),
                    )
                } by {
                    if q < j {
                        assert(chosen[q] == old_chosen[q]);
                        assert(f[q] == found@.take(j as int)[q]);
                    } else {
                        assert(f[q] == t);
                    }
                }
            }
            if keep {
                added.push(item);
                proof {
                    assert(chosen_tests(found@.take(j + 1), chosen) == prev.push(found@[j as int]));
                    assert forall|q: int| 0 <= q < added@.len() implies collected_from(
                        #[trigger] added@[q],
                        file@,
                        chosen_tests(found@.take(j + 1), chosen)[q],
                    ) by {
                        if q < before.len() {
                            assert(added@[q] == before[q]);
                        }
                    }
                }
            } else {
                assert(chosen_tests(found@.take(j + 1), chosen) == prev);
            }
            j += 1;
        }
        let ghost start = self.tests@;
        let ghost extra = added@;
        self.tests.append(&mut added);
        proof {
            assert(found@.take(total as int) =~= found@);
            assert(self.tests@ == start + extra);
            assert(self.tests@.subrange(0, start.len() as int) =~= start);
            assert forall|q: int| 0 <= q < chosen_tests(found@, chosen).len() implies collected_from(
                #[trigger] self.tests@[start.len() + q],
                file@,
                chosen_tests(found@, chosen)[q],
            ) by {
                assert(self.tests@[start.len() + q] == extra[q]);
            }
            assert(allowed_choice(*config, found@, chosen));
        }
    }

    /// The collected tests, in collection order.
    pub fn into_tests(self) -> (r: Vec<TestItem>)
        ensures
            r@ == self.tests@,
    {
        self.tests
    }
}

/// Every mark of some test.
pub open spec fn marks_of(tests: Seq<TestItem>) -> Set<Seq<char>> {
    Set::new(
        |m: Seq<char>|
            exists|i: int, j: int|
                0 <= i < tests.len() && 0 <= j < tests[i].marks.len() && #[trigger] tests[i].marks@[j]@
                    == m,
    )
}

/// The marks used by the tests, each once, in ascending order.
pub fn list_markers(tests: &Vec<TestItem>) -> (r: Vec<String>)
    ensures
        strictly_sorted_texts(texts(r@)),
        text_set(r@) =~= marks_of(tests@),
{
    let mut out: Vec<String> = Vec::new();
    let mut i: usize = 0;
    assert(text_set(out@) =~= marks_of(tests@.take(0)));
    while i < tests.len()
        invariant
            i <= tests.len(),
            strictly_sorted_texts(texts(out@)),
            text_set(out@) =~= marks_of(tests@.take(i as int)),
        decreases tests.len() - i,
    {
        let marks = &tests[i].marks;
        let mut j: usize = 0;
        while j < marks.len()
            invariant
                i < tests.len(),
                marks == tests@[i as int].marks,
                j <= marks.len(),
                strictly_sorted_texts(texts(out@)),
                text_set(out@) =~= marks_of(tests@.take(i as int)).union(
                    Set::new(|m: Seq<char>| exists|q: int| 0 <= q < j && #[trigger] marks@[q]@ == m),
                ),
            decreases marks.len() - j,
        {
            insert_sorted_unique(&mut out, marks[j].clone());
            proof {
                let before = Set::new(|m: Seq<char>| exists|q: int| 0 <= q < j && #[trigger] marks@[q]@ == m);
                let after = Set::new(|m: Seq<char>| exists|q: int| 0 <= q < j + 1 && #[trigger] marks@[q]@ == m);
                assert(after =~= before.insert(marks@[j as int]@)) by {
                    assert forall|m: Seq<char>| after.contains(m) implies before.insert(marks@[j as int]@).contains(m) by {
                        let q = choose|q: int| 0 <= q < j + 1 && #[trigger] marks@[q]@ == m;
                        if q < j {
                            assert(before.contains(m));
                        }
                    }
                    assert forall|m: Seq<char>| before.insert(marks@[j as int]@).contains(m) implies after.contains(m) by {
                        if m == marks@[j as int]@ {
                            assert(marks@[j as int]@ == m);
                        } else {
                            let q = choose|q: int| 0 <= q < j && #[trigger] marks@[q]@ == m;
                            assert(marks@[q]@ == m);
                        }
                    }
                }
            }
            j += 1;
        }
        proof {
            let cur = Set::new(|m: Seq<char>| exists|q: int| 0 <= q < marks.len() && #[trigger] marks@[q]@ == m);
            let pre = tests@.take(i as int);
            let post = tests@.take(i + 1);
            assert(marks_of(post) =~= marks_of(pre).union(cur)) by {
                assert forall|m: Seq<char>| marks_of(post).contains(m) implies marks_of(pre).union(cur).contains(m) by {
                    let (a, b) = choose|a: int, b: int|
                        0 <= a < post.len() && 0 <= b < post[a].marks.len() && #[trigger] post[a].marks@[b]@ == m;
                    if a < i {
                        assert(pre[a] == post[a]);
                        assert(pre[a].marks@[b]@ == m);
                    } else {
                        assert(post[a] == tests@[i as int]);
                        assert(marks@[b]@ == m);
                    }
                }
                assert forall|m: Seq<char>| marks_of(pre).union(cur).contains(m) implies marks_of(post).contains(m) by {
                    if marks_of(pre).contains(m) {
                        let (a, b) = choose|a: int, b: int|
                            0 <= a < pre.len() && 0 <= b < pre[a].marks.len() && #[trigger] pre[a].marks@[b]@ == m;
                        assert(post[a] == pre[a]);
                        assert(post[a].marks@[b]@ == m);
                    } else {
                        let q = choose|q: int| 0 <= q < marks.len() && #[trigger] marks@[q]@ == m;
                        assert(post[i as int] == tests@[i as int]);
                        assert(post[i as int].marks@[q]@ == m);
                    }
                }
            }
        }
        i += 1;
    }
    assert(tests@.take(tests.len() as int) =~= tests@);
    out
}

} // verus!

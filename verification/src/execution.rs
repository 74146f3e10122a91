//! Running collected tests: the choice between sequential and parallel
//! running, when a sequential run stops, and the tally of outcomes.
use vstd::prelude::*;
use crate::text::dedup;
use crate::types::{texts, RunConfig, TestItem, TestResult, TestSummary};

verus! {

/// Tests run one after the other when the run may stop early (`-x`,
/// `--maxfail`) or only one worker is allowed.
pub open spec fn runs_in_sequence(config: RunConfig) -> bool {
    config.exitfirst || config.maxfail is Some || config.jobs <= 1
}

/// Whether the tests run one after the other.
pub fn runs_sequentially(config: &RunConfig) -> (r: bool)
    ensures
        r == runs_in_sequence(*config),
{
    config.exitfirst || config.maxfail.is_some() || config.jobs <= 1
}

/// The number of failed outcomes.
pub open spec fn failure_count(results: Seq<TestResult>) -> nat
    decreases results.len(),
{
    if results.len() == 0 {
        0
    } else {
        failure_count(results.drop_last()) + if results.last().passed {
            0nat
        } else {
            1nat
        }
    }
}

/// A sequential run stops once it has seen a failure under `-x`, or as many
/// failures as `--maxfail` allows.
pub open spec fn should_stop(exitfirst: bool, maxfail: Option<usize>, failures: nat) -> bool {
    (exitfirst && failures > 0) || (maxfail matches Some(m) && failures >= m)
}

/// There are no more failures than outcomes.
pub proof fn lemma_failure_count_bounded(results: Seq<TestResult>)
    ensures
        failure_count(results) <= results.len(),
    decreases results.len(),
{
    if results.len() > 0 {
        lemma_failure_count_bounded(results.drop_last());
    }
}

/// One outcome counts one failure when it did not pass, none when it did; the
/// failures of two runs in a row add up.
pub proof fn lemma_failure_count_adds(a: Seq<TestResult>, b: Seq<TestResult>, r: TestResult)
    ensures
        failure_count(seq![r]) == if r.passed { 0nat } else { 1nat },
        failure_count(a + b) == failure_count(a) + failure_count(b),
    decreases b.len(),
{
    assert(seq![r].drop_last() =~= Seq::<TestResult>::empty());
    assert(failure_count(seq![r].drop_last()) == 0);
    assert(seq![r].last() == r);
    if b.len() == 0 {
        assert(a + b =~= a);
    } else {
        lemma_failure_count_adds(a, b.drop_last(), r);
        assert((a + b).drop_last() =~= a + b.drop_last());
        assert((a + b).last() == b.last());
    }
}

/// The state of a sequential run: its stopping rule, its outcomes so far, and
/// how many of them failed.
pub struct SequentialRun {
    pub exitfirst: bool,
    pub maxfail: Option<usize>,
    pub failures: usize,
    pub results: Vec<TestResult>,
}

impl SequentialRun {
    /// The failure count agrees with the outcomes.
    pub open spec fn wf(&self) -> bool {
        self.failures == failure_count(self.results@)
    }

    /// A run with no outcomes yet, under the configured stopping rule.
    pub fn new(config: &RunConfig) -> (r: SequentialRun)
        ensures
            r.wf(),
            r.results@.len() == 0,
            r.exitfirst == config.exitfirst,
            r.maxfail == config.maxfail,
    {
        SequentialRun { exitfirst: config.exitfirst, maxfail: config.maxfail, failures: 0, results: Vec::new() }
    }

    /// Records the outcome of the next test; answers whether the run goes on.
    pub fn record(&mut self, result: TestResult) -> (keep_going: bool)
        requires
            old(self).wf(),
            old(self).results.len() < usize::MAX,
        ensures
            final(self).wf(),
            final(self).results@ == old(self).results@.push(result),
            final(self).exitfirst == old(self).exitfirst,
            final(self).maxfail == old(self).maxfail,
            keep_going == !should_stop(final(self).exitfirst, final(self).maxfail, final(self).failures as nat),
    {
        proof {
            lemma_failure_count_bounded(self.results@);
            assert(self.results@.push(result).drop_last() =~= self.results@);
        }
        if !result.passed {
            self.failures = self.failures + 1;
        }
        self.results.push(result);
        if self.exitfirst && self.failures > 0 {
            return false;
        }
        match self.maxfail {
            Some(m) => self.failures < m,
            None => true,
        }
    }

    /// The outcomes recorded, in order.
    pub fn finish(self) -> (r: Vec<TestResult>)
        ensures
            r@ == self.results@,
    {
        self.results
    }
}

/// Under `-x`, a run whose stopping rule allowed every outcome but the last to
/// be followed by another holds at most one failure, and if one, the last.
pub proof fn lemma_exitfirst_keeps_one_failure(results: Seq<TestResult>, maxfail: Option<usize>)
    requires
        forall|j: int| 1 <= j < results.len() ==> !should_stop(true, maxfail, #[trigger] failure_count(results.take(j))),
    ensures
        failure_count(results) <= 1,
        failure_count(results) == 1 ==> !results.last().passed,
{
    if results.len() > 1 {
        let p = results.drop_last();
        assert(results.take(results.len() - 1) =~= p);
        assert(failure_count(p) == 0);
        assert(failure_count(results) == failure_count(p) + if results.last().passed { 0nat } else { 1nat });
    } else if results.len() == 1 {
        assert(results.drop_last() =~= Seq::<TestResult>::empty());
        assert(failure_count(results) == failure_count(results.drop_last()) + if results.last().passed { 0nat } else { 1nat });
    }
}

/// Under `--maxfail m` (with `m` at least one), such a run holds at most `m`
/// failures.
pub proof fn lemma_maxfail_bounds_failures(results: Seq<TestResult>, exitfirst: bool, m: usize)
    requires
        m >= 1,
        forall|j: int| 1 <= j < results.len() ==> !should_stop(exitfirst, Some(m), #[trigger] failure_count(results.take(j))),
    ensures
        failure_count(results) <= m,
{
    if results.len() > 1 {
        let p = results.drop_last();
        assert(results.take(results.len() - 1) =~= p);
        assert(failure_count(p) < m);
        assert(failure_count(results) == failure_count(p) + if results.last().passed { 0nat } else { 1nat });
    } else if results.len() == 1 {
        assert(results.drop_last() =~= Seq::<TestResult>::empty());
        assert(failure_count(results) == failure_count(results.drop_last()) + if results.last().passed { 0nat } else { 1nat });
    }
}

/// How many of the outcomes, one per test in order, a sequential run keeps,
/// looking from the `j`-th on: up to the first count after which the stopping
/// rule holds, or all of them.
pub open spec fn stop_length(exitfirst: bool, maxfail: Option<usize>, outcomes: Seq<TestResult>, j: int) -> int
    decreases outcomes.len() - j,
{
    if j >= outcomes.len() {
        outcomes.len() as int
    } else if should_stop(exitfirst, maxfail, failure_count(outcomes.take(j))) {
        j
    } else {
        stop_length(exitfirst, maxfail, outcomes, j + 1)
    }
}

/// The outcomes a sequential run keeps of `outcomes`, one per test in order:
/// every one up to the first after which the stopping rule holds.
pub open spec fn kept_outcomes(exitfirst: bool, maxfail: Option<usize>, outcomes: Seq<TestResult>) -> Seq<TestResult> {
    outcomes.take(stop_length(exitfirst, maxfail, outcomes, 1))
}

/// The results are the first outcomes, and the run went on after each but the
/// last, and stopped early only where the rule says so.
pub open spec fn run_as_recorded(
    exitfirst: bool,
    maxfail: Option<usize>,
    outcomes: Seq<TestResult>,
    results: Seq<TestResult>,
) -> bool {
    &&& results.len() <= outcomes.len()
    &&& results == outcomes.take(results.len() as int)
    &&& forall|j: int| 1 <= j < results.len() ==> !should_stop(exitfirst, maxfail, #[trigger] failure_count(results.take(j)))
    &&& results.len() == outcomes.len() || (results.len() > 0 && should_stop(exitfirst, maxfail, failure_count(results)))
}

proof fn lemma_stop_length_from(
    exitfirst: bool,
    maxfail: Option<usize>,
    outcomes: Seq<TestResult>,
    results: Seq<TestResult>,
    j: int,
)
    requires
        run_as_recorded(exitfirst, maxfail, outcomes, results),
        1 <= j <= results.len() || (j == 1 && results.len() == 0),
    ensures
        stop_length(exitfirst, maxfail, outcomes, j) == results.len(),
    decreases results.len() - j,
{
    if results.len() == 0 {
    } else if j < results.len() {
        assert(outcomes.take(j) =~= results.take(j));
        assert(!should_stop(exitfirst, maxfail, failure_count(results.take(j))));
        lemma_stop_length_from(exitfirst, maxfail, outcomes, results, j + 1);
    } else if j < outcomes.len() {
        assert(outcomes.take(j) =~= results);
    }
}

/// A sequential run that records the outcome of each test in turn, and goes on
/// while `SequentialRun::record` says so, ends with exactly `kept_outcomes`:
/// the outcomes of all tests unless `-x` or `--maxfail` stopped it, in test
/// order.
pub proof fn lemma_sequential_run_keeps_prefix(
    exitfirst: bool,
    maxfail: Option<usize>,
    outcomes: Seq<TestResult>,
    results: Seq<TestResult>,
)
    requires
        run_as_recorded(exitfirst, maxfail, outcomes, results),
    ensures
        results == kept_outcomes(exitfirst, maxfail, outcomes),
        results.len() < outcomes.len() ==> should_stop(exitfirst, maxfail, failure_count(results)),
{
    lemma_stop_length_from(exitfirst, maxfail, outcomes, results, 1);
}

/// The outcome of a test: its file, full name and marks, with whether it
/// passed and what it printed.
pub fn result_for(test: &TestItem, passed: bool, output: String) -> (r: TestResult)
    ensures
        r.file@ == test.file@,
        r.full_name@ == test.full_name@,
        r.passed == passed,
        r.output@ == output@,
        texts(r.marks@) == texts(test.marks@),
{
    TestResult {
        file: test.file.clone(),
        full_name: test.full_name.clone(),
        passed,
        output,
        marks: crate::text::copy_strings(&test.marks),
    }
}

/// The number of passed outcomes, counted in order.
fn count_failures(results: &Vec<TestResult>) -> (r: usize)
    ensures
        r == failure_count(results@),
{
    let mut n: usize = 0;
    let mut i: usize = 0;
    while i < results.len()
        invariant
            i <= results.len(),
            n == failure_count(results@.take(i as int)),
            n <= i,
        decreases results.len() - i,
    {
        proof {
            assert(results@.take(i + 1).drop_last() =~= results@.take(i as int));
        }
        if !results[i].passed {
            n += 1;
        }
        i += 1;
    }
    assert(results@.take(results.len() as int) =~= results@);
    n
}

/// The summary of a run: its outcomes in order, how many passed and how many
/// failed.
pub fn summarize(results: Vec<TestResult>) -> (r: TestSummary)
    ensures
        r.results@ == results@,
        r.failed == failure_count(results@),
        r.passed + r.failed == results@.len(),
{
    let failed: usize = count_failures(&results);
    proof {
        lemma_failure_count_bounded(results@);
    }
    let passed: usize = results.len() - failed;
    TestSummary { results, passed, failed }
}

impl TestSummary {
    /// The summary of a run with no tests.
    pub fn empty() -> (r: TestSummary)
        ensures
            r.results@.len() == 0,
            r.passed == 0,
            r.failed == 0,
    {
        TestSummary { results: Vec::new(), passed: 0, failed: 0 }
    }
}

/// The files of the tests, in order.
pub open spec fn files_of(tests: Seq<TestItem>) -> Seq<Seq<char>> {
    tests.map_values(|t: TestItem| t.file@)
}

/// The files of the tests, each once, in order of first appearance: the
/// modules to import before running.
pub fn unique_files(tests: &Vec<TestItem>) -> (r: Vec<String>)
    ensures
        texts(r@) == dedup(files_of(tests@)),
{
    let mut out: Vec<String> = Vec::new();
    let mut i: usize = 0;
    assert(files_of(tests@).take(0) =~= Seq::<Seq<char>>::empty());
    while i < tests.len()
        invariant
            i <= tests.len(),
            texts(out@) == dedup(files_of(tests@).take(i as int)),
        decreases tests.len() - i,
    {
        proof {
            assert(files_of(tests@).take(i + 1).drop_last() =~= files_of(tests@).take(i as int));
            assert(files_of(tests@).take(i + 1).last() == tests@[i as int].file@);
        }
        crate::text::push_unique(&mut out, tests[i].file.clone());
        i += 1;
    }
    assert(files_of(tests@).take(tests.len() as int) =~= files_of(tests@));
    out
}

} // verus!

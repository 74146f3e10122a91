//! The plain-text report of a run.
use vstd::prelude::*;
use crate::text::{chars_of, decimal_digits, push_decimal, string_from, trim_end, trim_end_of};
use crate::types::{TestResult, TestSummary};

verus! {

/// The report lines of one outcome: `ok FILE:NAME`, or `FAILED FILE:NAME`
/// followed by the output without trailing white space and an empty line.
pub open spec fn result_report(r: TestResult) -> Seq<char> {
    if r.passed {
        "ok "@ + r.file@ + ":"@ + r.full_name@ + "\n"@
    } else {
        "FAILED "@ + r.file@ + ":"@ + r.full_name@ + "\n"@ + trim_end_of(r.output@) + "\n\n"@
    }
}

/// The report lines of the outcomes, in order.
pub open spec fn results_report(results: Seq<TestResult>) -> Seq<char>
    decreases results.len(),
{
    if results.len() == 0 {
        seq![]
    } else {
        results_report(results.drop_last()) + result_report(results.last())
    }
}

/// The report of two runs of outcomes in a row is the report of the first,
/// then that of the second: each outcome is reported once, in order.
pub proof fn lemma_results_report_concat(a: Seq<TestResult>, b: Seq<TestResult>)
    ensures
        results_report(a + b) == results_report(a) + results_report(b),
    decreases b.len(),
{
    if b.len() == 0 {
        assert(a + b =~= a);
        assert(results_report(a) + results_report(b) =~= results_report(a));
    } else {
        lemma_results_report_concat(a, b.drop_last());
        assert((a + b).drop_last() =~= a + b.drop_last());
        assert((a + b).last() == b.last());
        assert(results_report(a + b) =~= results_report(a) + results_report(b));
    }
}

/// The whole report: the outcomes, then an empty line and the tally.
pub open spec fn summary_report(s: TestSummary) -> Seq<char> {
    results_report(s.results@) + "\nSummary: "@ + decimal_digits(s.passed as nat) + " passed, "@
        + decimal_digits(s.failed as nat) + " failed\n"@
}

/// Appends the characters of `s`.
fn push_text(out: &mut Vec<char>, s: &str)
    ensures
        final(out)@ == old(out)@ + s@,
{
    let mut cs = chars_of(s);
    out.append(&mut cs);
}

impl TestSummary {
    /// The report of the run, line by line, as the runner prints it.
    pub fn summary_text(&self) -> (r: String)
        ensures
            r@ == summary_report(*self),
    {
        let mut out: Vec<char> = Vec::new();
        let mut i: usize = 0;
        assert(self.results@.take(0) =~= Seq::<TestResult>::empty());
        while i < self.results.len()
            invariant
                i <= self.results.len(),
                out@ == results_report(self.results@.take(i as int)),
            decreases self.results.len() - i,
        {
            let r = &self.results[i];
            let ghost before = out@;
            proof {
                assert(self.results@.take(i + 1).drop_last() =~= self.results@.take(i as int));
                assert(self.results@.take(i + 1).last() == *r);
            }
            if r.passed {
                push_text(&mut out, "ok ");
                push_text(&mut out, r.file.as_str());
                push_text(&mut out, ":");
                push_text(&mut out, r.full_name.as_str());
                push_text(&mut out, "\n");
                assert(out@ =~= before + result_report(*r));
            } else {
                push_text(&mut out, "FAILED ");
                push_text(&mut out, r.file.as_str());
                push_text(&mut out, ":");
                push_text(&mut out, r.full_name.as_str());
                push_text(&mut out, "\n");
                let trimmed = trim_end(r.output.as_str());
                push_text(&mut out, trimmed.as_str());
                push_text(&mut out, "\n\n");
                assert(out@ =~= before + result_report(*r));
            }
            i += 1;
        }
        assert(self.results@.take(self.results.len() as int) =~= self.results@);
        let ghost body = out@;
        push_text(&mut out, "\nSummary: ");
        push_decimal(&mut out, self.passed);
        push_text(&mut out, " passed, ");
        push_decimal(&mut out, self.failed);
        push_text(&mut out, " failed\n");
        assert(out@ =~= summary_report(*self));
        string_from(&out)
    }
}

} // verus!

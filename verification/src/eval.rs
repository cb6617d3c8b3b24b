//! The golden-audio regression harness's bookkeeping: whether a candidate
//! passes against its reference, the per-file table line, the summary, and
//! the overall verdict. Enumerating the directories, decoding and comparing
//! the files is the caller's work.

use vstd::prelude::*;
use crate::compare::{Verdict, spec_verdict_name, verdict_name};
use crate::text::{decimal, push_char, push_decimal};

verus! {

/// How one candidate file fared against the reference of the same name.
#[derive(Debug)]
pub enum EvalComparison {
    /// No reference file of that name exists.
    MissingReference,
    /// Both files were compared, with this verdict.
    Compared(Verdict),
    /// Reading or comparing failed, with this message.
    Error(String),
}

/// One row of the eval report.
#[derive(Debug)]
pub struct EvalCase {
    pub name: String,
    pub verdict: String,
    pub passed: bool,
}

/// Whether a comparison is good enough for the case: byte identity when
/// `exact`, else byte identity or tier-2 equivalence.
pub open spec fn spec_case_passes(v: Verdict, exact: bool) -> bool {
    if exact {
        v is ByteIdentical
    } else {
        v is ByteIdentical || v is Tier2Equivalent
    }
}

/// Whether a comparison is good enough at the chosen tolerance.
pub fn case_passes(v: &Verdict, exact: bool) -> (r: bool)
    ensures
        r == spec_case_passes(*v, exact),
{
    match v {
        Verdict::ByteIdentical => true,
        Verdict::Tier2Equivalent => !exact,
        Verdict::Different { .. } => false,
    }
}

/// The report row for candidate `name`.
pub fn eval_case(name: String, comparison: EvalComparison, exact: bool) -> (c: EvalCase)
    ensures
        c.name == name,
        match comparison {
            EvalComparison::MissingReference => c.verdict@ == "missing_reference"@ && !c.passed,
            EvalComparison::Compared(v) => c.verdict@ == spec_verdict_name(v) && c.passed
                == spec_case_passes(v, exact),
            EvalComparison::Error(e) => c.verdict@ == "error: "@ + e@ && !c.passed,
        },
{
    match comparison {
        EvalComparison::MissingReference => EvalCase {
            name,
            verdict: String::from_str("missing_reference"),
            passed: false,
        },
        EvalComparison::Compared(v) => {
            let passed = case_passes(&v, exact);
            EvalCase { name, verdict: String::from_str(verdict_name(&v)), passed }
        },
        EvalComparison::Error(e) => {
            let mut verdict = String::from_str("error: ");
            verdict.append(e.as_str());
            EvalCase { name, verdict, passed: false }
        },
    }
}

/// `n` spaces.
pub open spec fn spaces(n: nat) -> Seq<char> {
    Seq::new(n, |i: int| ' ')
}

/// `s` right-aligned in a field of `width` characters.
pub open spec fn pad_left(s: Seq<char>, width: nat) -> Seq<char> {
    if s.len() >= width {
        s
    } else {
        spaces((width - s.len()) as nat) + s
    }
}

/// `s` left-aligned in a field of `width` characters.
pub open spec fn pad_right(s: Seq<char>, width: nat) -> Seq<char> {
    if s.len() >= width {
        s
    } else {
        s + spaces((width - s.len()) as nat)
    }
}

fn push_spaces(out: &mut String, n: usize)
    ensures
        final(out)@ == old(out)@ + spaces(n as nat),
{
    let ghost start = out@;
    let mut i: usize = 0;
    while i < n
        invariant
            i <= n,
            out@ == start + spaces(i as nat),
        decreases n - i,
    {
        push_char(out, ' ');
        proof {
            assert(start + spaces((i + 1) as nat) =~= (start + spaces(i as nat)).push(' '));
        }
        i += 1;
    }
}

/// The table line of a case: status right-aligned in four columns, the
/// name left-aligned in twenty-eight, then the verdict.
pub open spec fn spec_eval_line(name: Seq<char>, verdict: Seq<char>, passed: bool) -> Seq<char> {
    pad_left(
        if passed {
            "ok"@
        } else {
            "FAIL"@
        },
        4,
    ) + "  "@ + pad_right(name, 28) + "  "@ + verdict
}

/// The printed table line of a case.
pub fn eval_line(case: &EvalCase) -> (r: String)
    ensures
        r@ == spec_eval_line(case.name@, case.verdict@, case.passed),
{
    proof {
        reveal_strlit("ok");
        reveal_strlit("FAIL");
    }
    let mut out = String::new();
    if case.passed {
        push_spaces(&mut out, 2);
        out.append("ok");
    } else {
        out.append("FAIL");
    }
    out.append("  ");
    out.append(case.name.as_str());
    let n = case.name.as_str().unicode_len();
    if n < 28 {
        push_spaces(&mut out, 28 - n);
    }
    out.append("  ");
    out.append(case.verdict.as_str());
    out
}

/// How many cases passed.
pub open spec fn passed_count(cases: Seq<EvalCase>) -> nat
    decreases cases.len(),
{
    if cases.len() == 0 {
        0
    } else {
        passed_count(cases.drop_last()) + if cases.last().passed {
            1nat
        } else {
            0nat
        }
    }
}

proof fn lemma_passed_count_bound(cases: Seq<EvalCase>)
    ensures
        passed_count(cases) <= cases.len(),
    decreases cases.len(),
{
    if cases.len() > 0 {
        lemma_passed_count_bound(cases.drop_last());
    }
}

/// Every case passed exactly when the passing count is the case count:
/// the count the summary prints decides the run.
pub proof fn lemma_all_passed_iff_count_is_total(cases: Seq<EvalCase>)
    ensures
        (passed_count(cases) == cases.len()) <==> forall|i: int|
            0 <= i < cases.len() ==> #[trigger] cases[i].passed,
    decreases cases.len(),
{
    if cases.len() > 0 {
        let init = cases.drop_last();
        lemma_all_passed_iff_count_is_total(init);
        lemma_passed_count_bound(init);
        if forall|i: int| 0 <= i < cases.len() ==> #[trigger] cases[i].passed {
            assert forall|i: int| 0 <= i < init.len() implies #[trigger] init[i].passed by {
                assert(init[i] == cases[i]);
            }
            assert(cases[cases.len() - 1].passed);
        } else {
            let k = choose|k: int| 0 <= k < cases.len() && !(#[trigger] cases[k].passed);
            if k < cases.len() - 1 {
                assert(init[k] == cases[k]);
            }
        }
    }
}

/// The number of passing cases.
pub fn count_passed(cases: &Vec<EvalCase>) -> (n: usize)
    ensures
        n == passed_count(cases@),
        n <= cases@.len(),
{
    let mut n: usize = 0;
    let mut i: usize = 0;
    while i < cases.len()
        invariant
            i <= cases@.len(),
            n == passed_count(cases@.subrange(0, i as int)),
            n <= i,
        decreases cases@.len() - i,
    {
        assert(cases@.subrange(0, i + 1).drop_last() =~= cases@.subrange(0, i as int));
        if cases[i].passed {
            n += 1;
        }
        i += 1;
    }
    assert(cases@.subrange(0, cases@.len() as int) =~= cases@);
    n
}

/// The summary line: `eval: P/T passed (exact tolerance)` or
/// `(tier-2 tolerance)`.
pub open spec fn spec_eval_summary(passed: nat, total: nat, exact: bool) -> Seq<char> {
    "eval: "@ + decimal(passed) + "/"@ + decimal(total) + " passed ("@ + if exact {
        "exact"@
    } else {
        "tier-2"@
    } + " tolerance)"@
}

/// The summary line of a run.
pub fn eval_summary(passed: usize, total: usize, exact: bool) -> (r: String)
    ensures
        r@ == spec_eval_summary(passed as nat, total as nat, exact),
{
    let mut out = String::from_str("eval: ");
    push_decimal(&mut out, passed as u64);
    out.append("/");
    push_decimal(&mut out, total as u64);
    out.append(" passed (");
    if exact {
        out.append("exact");
    } else {
        out.append("tier-2");
    }
    out.append(" tolerance)");
    out
}

/// The report's name for the tolerance in force.
pub fn tier_name(exact: bool) -> (r: &'static str)
    ensures
        r@ == if exact {
            "exact"@
        } else {
            "tier2"@
        },
{
    if exact {
        "exact"
    } else {
        "tier2"
    }
}

/// A run succeeds when there was at least one candidate and every one
/// passed; an empty candidate directory is a failure, not a vacuous pass.
pub fn eval_succeeded(passed: usize, total: usize) -> (r: bool)
    ensures
        r == (total > 0 && passed == total),
{
    total > 0 && passed == total
}

} // verus!
